use llm_web::filters::text_for_html;

#[test]
fn plain_text_stays() {
    assert_eq!(text_for_html(""), "");
    assert_eq!(text_for_html("abc-123"), "abc-123");
    assert_eq!(text_for_html("héllo✓"), "héllo✓");
}

#[test]
fn markup_is_replaced() {
    assert_eq!(text_for_html(" "), "&nbsp;");
    assert_eq!(text_for_html("\n"), "<br/>");
    assert_eq!(text_for_html("<"), "&lt;");
    assert_eq!(text_for_html(">"), "&gt;");
    assert_eq!(text_for_html("&"), "&amp;");
    assert_eq!(text_for_html("\""), "&quot;");
    assert_eq!(text_for_html("'"), "&#39;");
    assert_eq!(text_for_html("\t"), "&nbsp;&nbsp;&nbsp;&nbsp;");
}

#[test]
fn a_line_of_markup() {
    assert_eq!(
        text_for_html("<a href=\"x\">it's 1 & 2</a>\n\tend"),
        "&lt;a&nbsp;href=&quot;x&quot;&gt;it&#39;s&nbsp;1&nbsp;&amp;&nbsp;2&lt;/a&gt;<br/>&nbsp;&nbsp;&nbsp;&nbsp;end"
    );
}

#[test]
fn long_text_is_handled() {
    let input = "a<b ".repeat(50_000);
    let output = text_for_html(&input);
    assert_eq!(output.len(), 50_000 * (1 + 4 + 1 + 6));
    assert!(output.starts_with("a&lt;b&nbsp;a&lt;b&nbsp;"));
}
