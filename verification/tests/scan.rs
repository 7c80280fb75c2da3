use wikicorpus::markup::{read_tokens, Token};
use wikicorpus::scan::{
    count_pages, count_step, is_page_start, scan, scan_document, variant_marker, variant_tag,
    ScanError, Scanner, VariantCounters, VARIANTS,
};

fn page(ns: &str, extra: &str, body: &str) -> String {
    format!(
        "<page><title>Title &amp; more</title><ns>{}</ns><id>45</id>{}<revision><id>550</id>\
         <timestamp>2001-01-21T02:12:21Z</timestamp><text>{}</text></revision></page>",
        ns, extra, body
    )
}

#[test]
fn an_article_is_handed_out_with_what_was_found() {
    let report = scan_document(&format!("<mediawiki>{}</mediawiki>", page("0", "", "body &lt;b&gt;"))).unwrap();
    assert_eq!(report.article_count, 1);
    assert_eq!(report.pages.len(), 1);
    let found = &report.pages[0];
    assert_eq!(found.page_id, 45);
    assert_eq!(found.revision_id, 550);
    assert_eq!(found.timestamp, 980043141000);
    assert_eq!(found.title, "Title & more");
    assert_eq!(found.body, "body <b>");
}

#[test]
fn a_page_outside_the_main_namespace_is_never_handed_out() {
    let report = scan_document(&page("1", "", "body")).unwrap();
    assert_eq!(report.pages.len(), 0);
    assert_eq!(report.article_count, 0);
}

#[test]
fn a_redirect_is_never_handed_out() {
    let report = scan_document(&page("0", "<redirect title=\"Other\"/>", "body")).unwrap();
    assert_eq!(report.pages.len(), 0);
    assert_eq!(report.article_count, 0);
}

#[test]
fn a_namespace_with_white_space_is_not_the_main_namespace() {
    let report = scan_document(&page(" 0", "", "body")).unwrap();
    assert_eq!(report.pages.len(), 0);
}

#[test]
fn the_first_identifier_is_the_page_and_the_one_in_the_revision_is_the_revision() {
    let dump = "<page><title>T</title><ns>0</ns><revision><id>7</id>\
                <timestamp>2023-05-01T12:00:00Z</timestamp></revision><id>3</id>\
                <text>body</text></page>";
    let report = scan_document(dump).unwrap();
    assert_eq!(report.pages.len(), 1);
    assert_eq!(report.pages[0].page_id, 3);
    assert_eq!(report.pages[0].revision_id, 7);
    assert_eq!(report.pages[0].timestamp, 1682942400000);
}

#[test]
fn an_article_that_lacks_a_field_is_counted_but_not_handed_out() {
    let dump = "<page><title>T</title><ns>0</ns><id>1</id><revision><id>2</id>\
                <text>body</text></revision></page>";
    let report = scan_document(dump).unwrap();
    assert_eq!(report.pages.len(), 0);
    assert_eq!(report.article_count, 1);
}

#[test]
fn an_identifier_that_is_no_number_is_passed_over() {
    let dump = "<page><title>T</title><ns>0</ns><id>x1</id><revision><id>2</id>\
                <timestamp>2023-05-01T12:00:00Z</timestamp><text>body</text></revision></page>";
    let report = scan_document(dump).unwrap();
    assert_eq!(report.pages.len(), 0);
    assert_eq!(report.article_count, 1);
}

#[test]
fn variants_are_counted_once_for_each_body_that_names_them() {
    let dump = format!(
        "{}{}{}",
        page("0", "", "-{zh-cn:a;zh-tw:b}- and zh-cn:c"),
        page("0", "", "zh-tw: again, zh-hans without colon"),
        page("1", "", "zh-sg:counted though the page is no article")
    );
    let report = scan_document(&dump).unwrap();
    let count = |tag: &str| -> u64 {
        let index = (0..VARIANTS).find(|i| variant_tag(*i) == tag).unwrap();
        report.variants.count(index)
    };
    assert_eq!(count("zh-cn"), 1);
    assert_eq!(count("zh-tw"), 2);
    assert_eq!(count("zh-hans"), 0);
    assert_eq!(count("zh-sg"), 1);
    assert_eq!(count("zh-hk"), 0);
    assert_eq!(report.pages.len(), 2);
}

#[test]
fn the_variants_are_eight_and_their_markers_end_in_a_colon() {
    let tags: Vec<&str> = (0..VARIANTS).map(variant_tag).collect();
    assert_eq!(tags, vec!["zh-hans", "zh-hant", "zh-cn", "zh-hk", "zh-mo", "zh-my", "zh-sg", "zh-tw"]);
    for i in 0..VARIANTS {
        assert_eq!(variant_marker(i), format!("{}:", variant_tag(i)));
    }
}

#[test]
fn counters_start_at_zero_and_count_by_one() {
    let mut counters = VariantCounters::new();
    assert_eq!(counters.counts, [0; 8]);
    counters.observe("zh-hk:x zh-hk:y zh-mo:");
    assert_eq!(counters.counts, [0, 0, 0, 1, 1, 0, 0, 0]);
}

#[test]
fn malformed_markup_gives_up_the_scan() {
    let dump = "<page><title>T</title></pag>";
    assert_eq!(scan_document(dump).err(), Some(ScanError::Markup));
}

#[test]
fn text_that_cannot_be_decoded_gives_up_the_scan() {
    let dump = "<page><title>&nope;</title></page>";
    assert_eq!(scan_document(dump).err(), Some(ScanError::Text));
    let tokens = vec![
        Token::Open(b"page".to_vec(), vec![]),
        Token::Open(b"title".to_vec(), vec![]),
        Token::Text(vec![0xff, 0xfe]),
    ];
    assert_eq!(scan(&tokens).err(), Some(ScanError::Text));
}

#[test]
fn a_time_that_cannot_be_read_gives_up_the_scan() {
    let dump = "<page><revision><timestamp>yesterday</timestamp></revision></page>";
    assert_eq!(scan_document(dump).err(), Some(ScanError::Timestamp));
}

#[test]
fn text_outside_a_page_is_not_read() {
    let dump = "<siteinfo><title>&nope;</title></siteinfo>";
    let report = scan_document(dump).unwrap();
    assert_eq!(report.pages.len(), 0);
}

#[test]
fn feeding_token_by_token_hands_out_the_page_where_it_ends() {
    let tokens = read_tokens(&page("0", "", "body"), false);
    let mut scanner = Scanner::new();
    let mut at = None;
    for (i, token) in tokens.iter().enumerate() {
        if scanner.feed(token).unwrap().is_some() {
            assert!(at.is_none());
            at = Some(i);
        }
    }
    assert_eq!(at, Some(tokens.len() - 1));
    assert!(matches!(&tokens[tokens.len() - 1], Token::Close(name) if name == b"page"));
    assert_eq!(scanner.article_count, 1);
    assert!(!scanner.inside_page);
    assert!(scanner.page_id.is_none() && scanner.title.is_none() && scanner.body.is_none());
}

#[test]
fn a_marker_after_the_body_still_keeps_the_page_back() {
    let late_namespace = "<page><title>T</title><id>1</id><revision><id>2</id>\
        <timestamp>2023-05-01T12:00:00Z</timestamp><text>body</text></revision><ns>2</ns></page>";
    let report = scan_document(late_namespace).unwrap();
    assert_eq!((report.pages.len(), report.article_count), (0, 0));
    let late_redirect = "<page><title>T</title><ns>0</ns><id>1</id><revision><id>2</id>\
        <timestamp>2023-05-01T12:00:00Z</timestamp><text>body</text></revision><redirect/></page>";
    let report = scan_document(late_redirect).unwrap();
    assert_eq!((report.pages.len(), report.article_count), (0, 0));
}

#[test]
fn a_redirect_marker_with_content_counts_as_one() {
    let report = scan_document(&page("0", "<redirect title=\"Other\"></redirect>", "body")).unwrap();
    assert_eq!((report.pages.len(), report.article_count), (0, 0));
}

#[test]
fn a_page_is_not_handed_out_with_what_an_earlier_page_left_behind() {
    let dump = format!(
        "{}<page><title>Second</title><ns>0</ns><revision><text>no identifiers</text></revision></page>{}",
        page("0", "", "first"),
        "<page><ns>0</ns><id>9</id><revision><id>10</id><timestamp>2023-05-01T12:00:00Z</timestamp>\
         <text>no title</text></revision></page>"
    );
    let report = scan_document(&dump).unwrap();
    assert_eq!(report.article_count, 3);
    assert_eq!(report.pages.len(), 1);
    assert_eq!(report.pages[0].page_id, 45);
    assert_eq!(report.pages[0].body, "first");
}

#[test]
fn an_article_without_a_body_is_counted_but_not_handed_out() {
    let dump = "<page><title>T</title><ns>0</ns><id>1</id><revision><id>2</id>\
                <timestamp>2023-05-01T12:00:00Z</timestamp><text></text></revision></page>";
    let report = scan_document(dump).unwrap();
    assert_eq!((report.pages.len(), report.article_count), (0, 1));
}

#[test]
fn an_error_leaves_the_scanner_as_it_was() {
    let mut scanner = Scanner::new();
    scanner.feed(&Token::Open(b"page".to_vec(), vec![])).unwrap();
    let before = format!("{:?}", scanner);
    assert_eq!(scanner.feed(&Token::Malformed).err(), Some(ScanError::Markup));
    assert_eq!(format!("{:?}", scanner), before);
}

#[test]
fn pages_are_counted_eligible_or_not() {
    let dump = format!("<mediawiki>{}{}{}</mediawiki>", page("0", "", "a"), page("1", "", "b"), page("0", "<redirect/>", "c"));
    let tokens = read_tokens(&dump, false);
    assert_eq!(count_pages(&tokens), Ok(3));
    assert_eq!(tokens.iter().filter(|t| is_page_start(t)).count(), 3);
    assert_eq!(count_pages(&read_tokens("<page></x>", false)), Err(ScanError::Markup));
    assert_eq!(count_pages(&vec![]), Ok(0));
}

#[test]
fn the_steps_of_the_scanner_work_alone() {
    let mut scanner = Scanner::new();
    scanner.open(b"page");
    assert!(scanner.inside_page && scanner.is_article);
    scanner.open(b"title");
    assert_eq!(scanner.note("T".to_string()), Ok(()));
    assert_eq!(scanner.title.as_deref(), Some("T"));
    assert!(scanner.close(b"title").is_none());
    scanner.open(b"id");
    scanner.note("12".to_string()).unwrap();
    scanner.close(b"id");
    assert_eq!(scanner.page_id, Some(12));
    scanner.open(b"revision");
    scanner.open(b"id");
    scanner.note("34".to_string()).unwrap();
    scanner.close(b"id");
    assert_eq!(scanner.revision_id, Some(34));
    assert_eq!(scanner.note_time(None), Err(ScanError::Timestamp));
    assert_eq!(scanner.timestamp, None);
    assert_eq!(scanner.note_time(Some(980043141000)), Ok(()));
    assert_eq!(scanner.timestamp, Some(980043141000));
    scanner.open(b"text");
    assert_eq!(scanner.note("zh-my:x".to_string()), Ok(()));
    assert_eq!(scanner.body.as_deref(), Some("zh-my:x"));
    assert_eq!(scanner.variants.counts, [0, 0, 0, 0, 0, 1, 0, 0]);
    scanner.close(b"text");
    scanner.close(b"revision");
    let page = scanner.close(b"page").unwrap();
    assert_eq!((page.page_id, page.revision_id, page.timestamp), (12, 34, 980043141000));
    assert_eq!((page.title.as_str(), page.body.as_str()), ("T", "zh-my:x"));
    assert_eq!(scanner.article_count, 1);
    assert!(!scanner.inside_page);
    assert!(scanner.page_id.is_none() && scanner.revision_id.is_none());
    assert!(scanner.timestamp.is_none() && scanner.title.is_none() && scanner.body.is_none());
}

#[test]
fn a_marker_ends_the_standing_of_the_page_at_any_step() {
    for as_opening in [false, true] {
        let mut scanner = Scanner::new();
        scanner.open(b"page");
        scanner.open(b"title");
        scanner.note("T".to_string()).unwrap();
        scanner.close(b"title");
        scanner.open(b"id");
        scanner.note("1".to_string()).unwrap();
        scanner.close(b"id");
        scanner.open(b"revision");
        scanner.open(b"id");
        scanner.note("2".to_string()).unwrap();
        scanner.close(b"id");
        scanner.note_time(Some(5)).unwrap();
        scanner.open(b"text");
        scanner.note("body".to_string()).unwrap();
        scanner.close(b"text");
        scanner.close(b"revision");
        if as_opening {
            scanner.open(b"redirect");
        } else {
            scanner.mark(b"redirect");
        }
        assert!(!scanner.is_article);
        assert!(scanner.close(b"page").is_none());
        assert_eq!(scanner.article_count, 0);
    }
}

#[test]
fn pages_are_counted_step_by_step() {
    assert_eq!(count_step(0, &Token::Open(b"page".to_vec(), vec![])), Ok(1));
    assert_eq!(count_step(4, &Token::Open(b"pages".to_vec(), vec![])), Ok(4));
    assert_eq!(count_step(4, &Token::Close(b"page".to_vec())), Ok(4));
    assert_eq!(count_step(4, &Token::Empty(b"page".to_vec())), Ok(4));
    assert_eq!(count_step(4, &Token::Malformed), Err(ScanError::Markup));
}

#[test]
fn a_body_read_in_pieces_is_put_together() {
    let report = scan_document(&page("0", "", "one <!-- aside -->two")).unwrap();
    assert_eq!(report.pages.len(), 1);
    assert_eq!(report.pages[0].body, "one two");
}

#[test]
fn the_first_identifier_of_a_revision_is_the_revision() {
    let dump = "<page><title>T</title><ns>0</ns><id>3</id><revision><id>7</id><parentid>6</parentid>\
                <timestamp>2023-05-01T12:00:00Z</timestamp>\
                <contributor><username>u</username><id>99</id></contributor>\
                <text>body</text></revision><id>4</id></page>";
    let report = scan_document(dump).unwrap();
    assert_eq!(report.pages.len(), 1);
    assert_eq!(report.pages[0].page_id, 3);
    assert_eq!(report.pages[0].revision_id, 7);
}

#[test]
fn the_last_revision_of_a_page_is_the_one_handed_out() {
    let dump = "<page><title>T</title><ns>0</ns><id>3</id>\
                <revision><id>7</id><timestamp>2001-01-21T02:12:21Z</timestamp><text>old</text></revision>\
                <revision><id>8</id><timestamp>2023-05-01T12:00:00Z</timestamp><text>new</text></revision>\
                </page>";
    let report = scan_document(dump).unwrap();
    assert_eq!(report.pages.len(), 1);
    let page = &report.pages[0];
    assert_eq!((page.revision_id, page.timestamp, page.body.as_str()), (8, 1682942400000, "new"));
}
