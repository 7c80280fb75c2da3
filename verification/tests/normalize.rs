use wikicorpus::markup::{Attribute, Token};
use wikicorpus::normalize::{
    clean_text, filter_lines, has_hidden_link, html_to_text, is_prose_line, paragraph_text,
    remove_asides, remove_section_headers, remove_self_closing_tags, remove_tags, substitute,
    NormalizeError, ParagraphWalk,
};

#[test]
fn doubled_angle_brackets_become_quotation_marks() {
    assert_eq!(clean_text("<<test>>"), Ok("«test»".to_string()));
}

#[test]
fn three_periods_become_an_ellipsis() {
    assert_eq!(clean_text("..."), Ok("…".to_string()));
    assert_eq!(clean_text("wait..."), Ok("wait…".to_string()));
    assert_eq!(clean_text("wait....."), Ok("wait…".to_string()));
    assert_eq!(clean_text("等。。。"), Ok("等…".to_string()));
    assert_eq!(clean_text("wait.."), Ok("wait..".to_string()));
}

#[test]
fn short_line_without_punctuation_is_filtered_in_strict_mode_only() {
    let html = "<p>中文字符串</p>";
    assert_eq!(html_to_text(html, true), Ok(String::new()));
    assert_eq!(html_to_text(html, false), Ok("中文字符串".to_string()));
}

#[test]
fn template_link_is_suppressed_inside_a_paragraph() {
    let html = "<p>前面<a href=\"/index.php?title=Template:X\">模板</a>后面</p>";
    assert_eq!(html_to_text(html, false), Ok("前面后面".to_string()));
}

#[test]
fn ordinary_link_text_is_kept() {
    let html = "<p>前面<a href=\"/index.php?title=Page\">链接</a>后面</p>";
    assert_eq!(html_to_text(html, false), Ok("前面链接后面".to_string()));
}

#[test]
fn api_and_file_links_are_suppressed() {
    let html = "<p>甲<a href=\"/index.php?title=API\">乙</a>丙<a href=\"/index.php/File:x.png\">丁</a>戊</p>";
    assert_eq!(html_to_text(html, false), Ok("甲丙戊".to_string()));
}

#[test]
fn text_outside_paragraphs_is_dropped() {
    assert_eq!(html_to_text("<div>outside</div><p>inside</p>", false), Ok("inside".to_string()));
    assert_eq!(html_to_text("plain", false), Ok(String::new()));
}

#[test]
fn paragraphs_are_separated_by_one_line_feed() {
    assert_eq!(html_to_text("<p>one</p><p>two</p>", false), Ok("one\ntwo".to_string()));
    assert_eq!(html_to_text("<p>one</p>\n\n<p>two</p>", false), Ok("one\ntwo".to_string()));
}

#[test]
fn character_references_are_resolved() {
    assert_eq!(html_to_text("<p>a &amp; b</p>", false), Ok("a & b".to_string()));
}

#[test]
fn malformed_html_is_an_error() {
    assert_eq!(html_to_text("<p>one</q>", false), Err(NormalizeError::Markup));
    assert_eq!(html_to_text("<p>&bogus;</p>", false), Err(NormalizeError::Markup));
}

#[test]
fn tags_are_removed() {
    assert_eq!(remove_tags("a<b>bold</b>c"), Ok("ac".to_string()));
    assert_eq!(remove_tags("a<br>c</span>d"), Ok("acd".to_string()));
    assert_eq!(remove_self_closing_tags("a<br/>b"), Ok("ab".to_string()));
}

#[test]
fn escaped_tags_in_text_are_cut_after_the_walk() {
    assert_eq!(html_to_text("<p>x&lt;ref&gt;note&lt;/ref&gt;y</p>", false), Ok("xy".to_string()));
}

#[test]
fn asides_go_unless_ideographic() {
    assert_eq!(html_to_text("<p>北京（Beijing）是首都</p>", false), Ok("北京是首都".to_string()));
    assert_eq!(html_to_text("<p>北京（首都）很大</p>", false), Ok("北京（首都）很大".to_string()));
}

#[test]
fn text_between_two_asides_is_kept() {
    assert_eq!(html_to_text("<p>甲（a）乙（b）丙</p>", false), Ok("甲乙丙".to_string()));
    assert_eq!(html_to_text("<p>甲（a）乙（中文）丙（b）丁</p>", false), Ok("甲乙（中文）丙丁".to_string()));
    assert_eq!(remove_asides("甲（一）乙（二）丙"), Ok("甲（一）乙（二）丙".to_string()));
}

#[test]
fn section_headers_go() {
    assert_eq!(html_to_text("<p>== 历史 ==\n正文</p>", false), Ok("正文".to_string()));
    assert_eq!(remove_section_headers("前言\n== 历史 ==  \n正文\n=== 细节 ===\n结尾"), Ok("前言\n正文\n结尾".to_string()));
    assert_eq!(remove_section_headers("== 结语 =="), Ok(String::new()));
}

#[test]
fn equals_signs_inside_a_line_are_no_header() {
    assert_eq!(remove_section_headers("甲==乙==丙"), Ok("甲==乙==丙".to_string()));
    assert_eq!(remove_section_headers("==甲==乙"), Ok("==甲==乙".to_string()));
}

#[test]
fn spacing_is_put_in_order() {
    assert_eq!(clean_text("a\tb   c"), Ok("a b c".to_string()));
    assert_eq!(clean_text("a , b"), Ok("a, b".to_string()));
    assert_eq!(clean_text("( a"), Ok("(a".to_string()));
    assert_eq!(clean_text("a,,b"), Ok("a,b".to_string()));
    assert_eq!(clean_text("a，，b"), Ok("a，b".to_string()));
    assert_eq!(clean_text("a,.b"), Ok("a.b".to_string()));
    assert_eq!(clean_text("a，。b"), Ok("a。b".to_string()));
    assert_eq!(clean_text("a\n!!!\nb"), Ok("a\nb".to_string()));
}

#[test]
fn strict_mode_keeps_prose_lines() {
    let prose = "这是一个完整的中文句子，用来测试。";
    let text = format!("short\n{}\nthis line is long enough, but latin.\n  {}  ", prose, prose);
    assert_eq!(filter_lines(&text), Ok(format!("{}\n{}", prose, prose)));
}

#[test]
fn seventy_percent_exactly_is_not_enough() {
    // seven ideographs, one mark and two letters: seven tenths, not more
    assert_eq!(filter_lines("一二三四五六七,ab"), Ok(String::new()));
    // eight ideographs out of ten
    assert_eq!(filter_lines("一二三四五六七八,a"), Ok("一二三四五六七八,a".to_string()));
}

#[test]
fn cleaning_clean_text_changes_nothing_more() {
    let samples = [
        "a  b\t\tc...d。。。。e",
        "<<引文>> ( 注 ) 和 [ 说明 ]",
        "第一行 ，\n---\n第二行 。",
        "甲,,乙，，丙,.丁，。",
    ];
    for sample in samples {
        let once = clean_text(sample).unwrap();
        let twice = clean_text(&once).unwrap();
        assert_eq!(twice, once, "{:?}", sample);
        assert!(!once.contains("  "));
        assert!(!once.contains("..."));
        assert!(!once.contains("。。。"));
    }
}

#[test]
fn normalized_text_holds_no_tags_and_is_trimmed() {
    let html = "<p>  前言 &lt;ref name=\"a\"&gt;注&lt;/ref&gt; 正文&lt;br/&gt;  </p>";
    let text = html_to_text(html, false).unwrap();
    assert_eq!(text, "前言 正文");
    assert_eq!(remove_tags(&text), Ok(text.clone()));
    assert_eq!(remove_self_closing_tags(&text), Ok(text.clone()));
    assert_eq!(text.trim(), text);
}

#[test]
fn plain_text_has_no_paragraph_to_take_text_from() {
    let text = html_to_text("<p>正文</p>", false).unwrap();
    assert_eq!(html_to_text(&text, false), Ok(String::new()));
}

#[test]
fn a_walk_takes_text_inside_paragraphs_where_it_is_allowed() {
    let mut walk = ParagraphWalk::new();
    assert!(!walk.in_paragraph && walk.allowed && walk.text.is_empty());
    walk.take("outside");
    assert!(walk.text.is_empty());
    walk.open(b"p", &vec![]);
    walk.take("one");
    walk.open(b"a", &vec![Attribute { key: b"href".to_vec(), value: b"/index.php/File:x.png".to_vec() }]);
    assert!(!walk.allowed);
    walk.take("hidden");
    walk.close(b"a");
    assert!(walk.allowed);
    walk.open(b"span", &vec![]);
    walk.take("two");
    walk.close(b"p");
    assert!(!walk.in_paragraph);
    walk.close(b"p");
    assert_eq!(walk.into_text(), "onetwo\n");
}

#[test]
fn a_hidden_link_is_known_by_its_target() {
    let link = |key: &[u8], value: &[u8]| vec![Attribute { key: key.to_vec(), value: value.to_vec() }];
    assert!(has_hidden_link(&link(b"href", b"/index.php?title=Template:X")));
    assert!(has_hidden_link(&link(b"href", b"/index.php?title=API")));
    assert!(has_hidden_link(&link(b"href", b"/index.php/File:x")));
    assert!(!has_hidden_link(&link(b"href", b"/index.php?title=X")));
    assert!(!has_hidden_link(&link(b"title", b"/index.php/File:x")));
    assert!(!has_hidden_link(&vec![]));
}

#[test]
fn prose_is_told_by_counts() {
    assert!(is_prose_line(10, 1, 8));
    assert!(!is_prose_line(10, 1, 7));
    assert!(!is_prose_line(10, 0, 10));
    assert!(!is_prose_line(9, 1, 9));
    assert!(!is_prose_line(90, 5, 63));
    assert!(is_prose_line(90, 5, 64));
}

#[test]
fn paragraph_text_walks_tokens() {
    let tokens = vec![
        Token::Open(b"p".to_vec(), vec![]),
        Token::Text(b"a &lt; b".to_vec()),
        Token::Empty(b"br".to_vec()),
        Token::Other,
        Token::Close(b"p".to_vec()),
    ];
    assert_eq!(paragraph_text(&tokens), Ok("a < b\n".to_string()));
    let broken = vec![Token::Open(b"p".to_vec(), vec![]), Token::Malformed];
    assert_eq!(paragraph_text(&broken), Err(NormalizeError::Markup));
}

#[test]
fn the_steps_of_the_tidying_work_alone() {
    assert_eq!(remove_asides("甲（abc）乙"), Ok("甲乙".to_string()));
    assert_eq!(remove_asides("甲（中文）乙"), Ok("甲（中文）乙".to_string()));
    assert_eq!(remove_section_headers("== 标题 ==\n正文"), Ok("正文".to_string()));
    assert_eq!(substitute("a+", "caaab", "-"), Ok("c-b".to_string()));
    assert_eq!(substitute("(a", "caaab", "-"), Err(NormalizeError::Pattern));
}

#[test]
fn clean_text_leaves_no_tab() {
    for sample in ["a\tb", "\t\t", "甲\t，\t乙", "x\t...\t。。。\ty", "\n\t\n"] {
        assert!(!clean_text(sample).unwrap().contains('\t'), "{:?}", sample);
    }
    assert_eq!(substitute("\t+", "a\t\tb", "-"), Ok("a-b".to_string()));
}
