use cmarkfmt::event::{ColumnAlign, Construct, DocEvent, LinkKind, Reference};
use cmarkfmt::{CodeFormat, Formatter};

fn fmt(input: &str) -> String {
    Formatter::default().format_cmark(input)
}

fn paragraph(inner: Vec<DocEvent>) -> Vec<DocEvent> {
    let mut v = vec![DocEvent::Start(Construct::Paragraph)];
    v.extend(inner);
    v.push(DocEvent::End(Construct::Paragraph));
    v
}

#[test]
fn rendering_is_a_fixed_point() {
    let inputs = [
        "# Title\nSome *text* and **more**.\n\n* a\n* b\n\n> quote\n",
        "|A|B|\n|:-|-:|\n|x|yy|\n",
        "1. one\n   line\n2. two\n\n```json\n{ \"k\": 1 }\n```\n",
        "Here's a [reference][link]. It should be preserved.\n\n[link]: https://example.com",
    ];
    for input in inputs {
        let once = fmt(input);
        let twice = fmt(&once);
        assert_eq!(once, twice);
    }
}

#[test]
fn leading_markup_character_is_escaped() {
    let f = Formatter::default();
    for (text, expected) in [("*x", "\\*x\n"), ("_x", "\\_x\n"), ("[x", "\\[x\n"), ("~x", "\\~x\n"), ("`x", "\\`x\n")] {
        let events = paragraph(vec![DocEvent::Text(text.to_string())]);
        assert_eq!(f.format_events(&events, vec![]), expected);
    }
}

#[test]
fn escaping_is_only_at_fragment_start() {
    let events = paragraph(vec![DocEvent::Text("a*b".to_string())]);
    assert_eq!(Formatter::default().format_events(&events, vec![]), "a*b\n");
}

#[test]
fn line_start_markers_are_escaped_only_at_line_start() {
    let f = Formatter::default();
    let events = paragraph(vec![DocEvent::Text("# not".to_string())]);
    assert_eq!(f.format_events(&events, vec![]), "\\# not\n");
    let events = paragraph(vec![DocEvent::Text("a ".to_string()), DocEvent::Text("-b".to_string())]);
    assert_eq!(f.format_events(&events, vec![]), "a -b\n");
}

#[test]
fn blank_lines_are_collapsed() {
    assert_eq!(fmt("a\n\n\n\nb"), "a\n\nb\n");
    for input in ["\n\n\na", "> a\n\n\n> b", "---\n\n\n---", "<div>\n\n\n</div>\n\n\nx"] {
        let out = fmt(input);
        assert!(!out.starts_with('\n'), "{out:?}");
        assert!(!out.contains("\n\n\n"), "{out:?}");
    }
}

#[test]
fn trailing_whitespace_is_trimmed() {
    let events = paragraph(vec![
        DocEvent::Text("a   ".to_string()),
        DocEvent::SoftBreak,
        DocEvent::Text("b\t".to_string()),
    ]);
    assert_eq!(Formatter::default().format_events(&events, vec![]), "a\nb\n");
}

#[test]
fn short_table_row_gets_empty_cells() {
    let cell = |s: &str| {
        vec![
            DocEvent::Start(Construct::TableCell),
            DocEvent::Text(s.to_string()),
            DocEvent::End(Construct::TableCell),
        ]
    };
    let aligns = vec![ColumnAlign::Unaligned, ColumnAlign::Unaligned];
    let mut events = vec![DocEvent::Start(Construct::Table(aligns.clone())), DocEvent::Start(Construct::TableHead)];
    events.extend(cell("A"));
    events.extend(cell("Bee"));
    events.push(DocEvent::End(Construct::TableHead));
    events.push(DocEvent::Start(Construct::TableRow));
    events.extend(cell("x"));
    events.push(DocEvent::End(Construct::TableRow));
    events.push(DocEvent::End(Construct::Table(aligns)));
    assert_eq!(
        Formatter::default().format_events(&events, vec![]),
        "| A   | Bee |\n| --- | --- |\n| x   |     |\n"
    );
}

#[test]
fn table_widths_follow_the_widest_cell() {
    assert_eq!(
        fmt("|Title|Description|\n|---|---|\n|Test|This is a test|"),
        "| Title | Description    |\n| ----- | -------------- |\n| Test  | This is a test |\n"
    );
    assert_eq!(fmt("|a|b|\n|:-:|--:|\n|c|d|"), "| a   | b   |\n| :-: | --: |\n| c   | d   |\n");
}

#[test]
fn ordered_list_continuation_lines_align() {
    assert_eq!(fmt("1. Multiple\n   line\n2. Next"), "1. Multiple\n   line\n1. Next\n");
}

#[test]
fn fenced_code_is_verbatim() {
    assert_eq!(fmt("```json\n{ \"k\": 1 }\n```"), "```json\n{ \"k\": 1 }\n```\n");
    assert_eq!(fmt("```\n*a* _b_ <c>\n```"), "```\n*a* _b_ <c>\n```\n");
}

#[test]
fn reference_link_with_and_without_definition() {
    let f = Formatter::default();
    let dest = "https://x.org".to_string();
    let link = |typ: LinkKind| {
        paragraph(vec![
            DocEvent::Start(Construct::Link(typ, dest.clone(), String::new())),
            DocEvent::Text("text".to_string()),
            DocEvent::End(Construct::Link(typ, dest.clone(), String::new())),
        ])
    };
    let defs = vec![Reference { label: "lbl".to_string(), dest: "HTTPS://X.ORG".to_string(), title: None }];
    assert_eq!(f.format_events(&link(LinkKind::Reference), defs), "[text][lbl]\n\n[lbl]: HTTPS://X.ORG\n");
    assert_eq!(f.format_events(&link(LinkKind::Reference), vec![]), "[text](https://x.org)\n");
}

#[test]
fn link_forms() {
    assert_eq!(fmt("[a](http://b \"T\")"), "[a](http://b \"T\")\n");
    assert_eq!(fmt("<http://a.b>"), "<http://a.b>\n");
    assert_eq!(fmt("![alt](i.png)"), "![alt](i.png)\n");
}

#[test]
fn references_are_sorted_by_label() {
    let f = Formatter::default();
    let defs = vec![
        Reference { label: "b".to_string(), dest: "/b".to_string(), title: Some("B".to_string()) },
        Reference { label: "a".to_string(), dest: "/a".to_string(), title: None },
    ];
    assert_eq!(f.format_events(&vec![], defs), "[a]: /a\n[b]: /b \"B\"\n");
}

#[test]
fn heading_with_attributes() {
    let events = vec![
        DocEvent::Start(Construct::Heading(2, Some("id".to_string()), vec!["c".to_string()])),
        DocEvent::Text("T".to_string()),
        DocEvent::End(Construct::Heading(2, Some("id".to_string()), vec!["c".to_string()])),
    ];
    assert_eq!(Formatter::default().format_events(&events, vec![]), "## T{ #id .c }\n");
}

#[test]
fn inline_leaves() {
    let f = Formatter::default();
    let events = paragraph(vec![DocEvent::Code("`x".to_string())]);
    assert_eq!(f.format_events(&events, vec![]), "`\\`x`\n");
    let events = paragraph(vec![DocEvent::FootnoteReference("n".to_string())]);
    assert_eq!(f.format_events(&events, vec![]), "[^n]\n");
    assert_eq!(fmt("- [x] done\n- [ ] todo"), "- [x] done\n- [ ] todo\n");
    assert_eq!(fmt("a ~~b~~ **c**"), "a ~~b~~ **c**\n");
}

#[test]
fn hard_break_keeps_backslash() {
    assert_eq!(fmt("a  \nb"), "a\\\nb\n");
}

#[test]
fn custom_markers() {
    let f = Formatter::default().with_emphasis("*").with_unordered_list("*").with_blockquote(">");
    assert_eq!(f.format_cmark("_a_"), "*a*\n");
    assert_eq!(f.format_cmark("- x\n- y"), "* x\n* y\n");
    let g = Formatter::default().with_unordered_list("+");
    assert_eq!(g.format_cmark("* x\n  y"), "+ x\n  y\n");
}

struct Upper;

impl CodeFormat for Upper {
    fn format_code(&self, lang: &str, code: &str) -> Option<String> {
        if lang == "rust" {
            Some(code.to_uppercase())
        } else {
            None
        }
    }
}

#[test]
fn code_formatter_rewrites_fenced_code() {
    let upper = Upper;
    let f = Formatter::default().with_code_formatter(Some(&upper));
    assert_eq!(f.format_cmark("```rust\nfn x\n```"), "```rust\nFN X\n```\n");
    assert_eq!(f.format_cmark("```text\nfn x\n```"), "```text\nfn x\n```\n");
    assert_eq!(f.format_cmark("    fn x"), "    fn x\n");
}
