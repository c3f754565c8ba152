use hyde_ext::colorize::parse_color_spans;
use hyde_ext::colorize::Segment;

#[test]
fn a_span_splits_the_description() {
    let r = parse_color_spans(b"pre {color:yellow}warm{/color} post");
    assert_eq!(
        r,
        vec![
            Segment::Plain(b"pre ".to_vec()),
            Segment::Colored(b"yellow".to_vec(), b"warm".to_vec()),
            Segment::Plain(b" post".to_vec()),
        ]
    );
}

#[test]
fn two_spans_parse_in_order() {
    let r = parse_color_spans(b"{color:red}a{/color}-{color:blue}b{/color}");
    assert_eq!(
        r,
        vec![
            Segment::Colored(b"red".to_vec(), b"a".to_vec()),
            Segment::Plain(b"-".to_vec()),
            Segment::Colored(b"blue".to_vec(), b"b".to_vec()),
        ]
    );
}

#[test]
fn an_unclosed_span_stays_plain() {
    let r = parse_color_spans(b"{color:red}oops");
    assert_eq!(r, vec![Segment::Plain(b"{color:red}oops".to_vec())]);
}

#[test]
fn a_line_feed_blocks_the_span() {
    let r = parse_color_spans(b"{color:red}a\nb{/color}");
    assert_eq!(r, vec![Segment::Plain(b"{color:red}a\nb{/color}".to_vec())]);
}

#[test]
fn an_empty_color_name_is_no_span() {
    let r = parse_color_spans(b"{color:}x{/color}");
    assert_eq!(r, vec![Segment::Plain(b"{color:}x{/color}".to_vec())]);
}

#[test]
fn the_span_text_is_the_shortest_to_the_first_close() {
    let r = parse_color_spans(b"{color:a}{color:b}t{/color}");
    assert_eq!(
        r,
        vec![Segment::Colored(b"a".to_vec(), b"{color:b}t".to_vec())]
    );
}

#[test]
fn plain_text_passes_through_whole() {
    let r = parse_color_spans(b"nothing to see");
    assert_eq!(r, vec![Segment::Plain(b"nothing to see".to_vec())]);
    assert_eq!(parse_color_spans(b""), Vec::<Segment>::new());
}
