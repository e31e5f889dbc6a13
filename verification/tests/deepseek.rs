use docling_backends::deepseek::{
    is_deepseek_markdown, is_unlimited_ocr_markdown, normalize_unlimited_ocr, DeepSeekBackend,
};
use docling_backends::document::Node;
use docling_backends::html::MAX_DOM_DEPTH;

fn bare(nodes: &[Node]) -> Vec<&Node> {
    nodes
        .iter()
        .map(|n| match n {
            Node::Located { inner, .. } => inner.as_ref(),
            other => other,
        })
        .collect()
}

#[test]
fn unlimited_annotations_normalize_to_deepseek_shape() {
    let raw = "<|det|>title [52, 40, 816, 63]<|/det|>Reconciliation report No. 1481";
    assert!(is_unlimited_ocr_markdown(raw));
    assert_eq!(
        normalize_unlimited_ocr(raw),
        "<|ref|>title<|/ref|><|det|>[[52, 40, 816, 63]]<|/det|>\nReconciliation report No. 1481"
    );
    let ds = "<|ref|>text<|/ref|><|det|>[[1, 2, 3, 4]]<|/det|>\nBody.";
    assert!(!is_unlimited_ocr_markdown(ds));
    assert_eq!(normalize_unlimited_ocr(ds), ds);
}

#[test]
fn normalized_unlimited_output_parses_as_deepseek() {
    let raw = "<|det|>title [52, 40, 816, 63]<|/det|>Report 1481\n\
               <|det|>text [52, 80, 816, 120]<|/det|>First paragraph.";
    let nodes = DeepSeekBackend.convert(&normalize_unlimited_ocr(raw), MAX_DOM_DEPTH);
    let nodes = bare(&nodes);
    assert_eq!(nodes.len(), 2);
    assert_eq!(
        nodes[0],
        &Node::Heading { level: 1, text: "Report 1481".to_string() }
    );
    assert_eq!(
        nodes[1],
        &Node::Paragraph { text: "First paragraph.".to_string() }
    );
}

#[test]
fn deepseek_markdown_is_told_by_its_references() {
    assert!(is_deepseek_markdown(
        "<|ref|>text<|/ref|><|det|>[[1, 2, 3, 4]]<|/det|>\nBody."
    ));
    assert!(!is_deepseek_markdown("# A heading\n\nBody."));
}

#[test]
fn lines_before_the_first_label_change_nothing() {
    let page = "<|ref|>text<|/ref|><|det|>[[1, 2, 3, 4]]<|/det|>\nBody.";
    let prefixed = format!("A preamble.\n\nMore of it.\n{page}");
    assert_eq!(
        DeepSeekBackend.convert(&prefixed, MAX_DOM_DEPTH),
        DeepSeekBackend.convert(page, MAX_DOM_DEPTH)
    );
    assert!(is_deepseek_markdown(&prefixed));
}
