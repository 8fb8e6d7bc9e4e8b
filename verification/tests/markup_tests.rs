use mechanix_shell::markup::{markup_rows, parse_markup, parse_urls_in_text, MarkupNode};

fn show(nodes: &[MarkupNode]) -> Vec<String> {
    nodes
        .iter()
        .map(|n| match n {
            MarkupNode::Text(t) => format!("text:{}", t),
            MarkupNode::Link { text, url } => format!("link:{}|{}", text, url),
            MarkupNode::LineBreak => "br".to_string(),
        })
        .collect()
}

#[test]
fn urls_split_surrounding_text() {
    let nodes = parse_urls_in_text("see https://a.b x");
    assert_eq!(
        show(&nodes),
        vec!["text:see ", "link:https://a.b|https://a.b", "text: x"]
    );
}

#[test]
fn urls_plain_text_is_one_node() {
    assert_eq!(show(&parse_urls_in_text("plain words")), vec!["text:plain words"]);
}

#[test]
fn urls_empty_text_has_no_node() {
    assert!(parse_urls_in_text("").is_empty());
}

#[test]
fn urls_several_and_adjacent() {
    let nodes = parse_urls_in_text("http://x.y and https://z.w");
    assert_eq!(
        show(&nodes),
        vec!["link:http://x.y|http://x.y", "text: and ", "link:https://z.w|https://z.w"]
    );
}

#[test]
fn urls_text_round_trips() {
    let text = "go to https://mecha.so/docs now, or http://a.b";
    let nodes = parse_urls_in_text(text);
    let joined: String = nodes
        .iter()
        .map(|n| match n {
            MarkupNode::Text(t) => t.clone(),
            MarkupNode::Link { text, .. } => text.clone(),
            MarkupNode::LineBreak => "\n".to_string(),
        })
        .collect();
    assert_eq!(joined, text);
}

#[test]
fn markup_html_link_and_line_break() {
    let nodes = parse_markup("a\n<a href=\"http://x.y\">X</a> tail");
    assert_eq!(
        show(&nodes),
        vec!["text:a", "br", "link:X|http://x.y", "text: tail"]
    );
}

#[test]
fn markup_single_quoted_link_with_url_before() {
    let nodes = parse_markup("see https://u.v <a href='http://l.m'>L</a>");
    assert_eq!(
        show(&nodes),
        vec!["text:see ", "link:https://u.v|https://u.v", "text: ", "link:L|http://l.m"]
    );
}

#[test]
fn markup_empty_and_blank_lines() {
    assert!(parse_markup("").is_empty());
    assert_eq!(show(&parse_markup("\n")), vec!["br"]);
    assert_eq!(show(&parse_markup("x\n\ny")), vec!["text:x", "br", "br", "text:y"]);
}

#[test]
fn markup_two_links_on_a_line() {
    let nodes = parse_markup("<a href=\"u1\">one</a><a href=\"u2\">two</a>");
    assert_eq!(show(&nodes), vec!["link:one|u1", "link:two|u2"]);
}

#[test]
fn markup_rows_skip_empty_lines() {
    let nodes = parse_markup("x\n\ny <a href=\"u\">L</a>\n");
    assert_eq!(markup_rows(&nodes), vec![(0, 1), (3, 5)]);
    assert!(markup_rows(&Vec::new()).is_empty());
    assert_eq!(markup_rows(&parse_markup("\n\n")), Vec::<(usize, usize)>::new());
}
