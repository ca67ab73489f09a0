use wiktionary_part_of_speech_extract::PageAssembler;

fn assemble(lines: &[&str]) -> Vec<String> {
    let mut assembler = PageAssembler::new();
    let mut pages = Vec::new();
    for line in lines {
        if let Some(page) = assembler.push_line(line) {
            pages.push(page);
        }
    }
    pages
}

#[test]
fn one_complete_page() {
    let pages = assemble(&["<page>", "<title>walk</title>", "<text>w</text>", "</page>"]);
    assert_eq!(pages, vec!["<title>walk</title>\n<text>w</text>\n".to_string()]);
}

#[test]
fn markers_are_excluded_and_lines_keep_newlines() {
    let pages = assemble(&["prelude", "<page>", "a", "b", "</page>", "coda"]);
    assert_eq!(pages, vec!["a\nb\n".to_string()]);
}

#[test]
fn unterminated_page_is_dropped() {
    // two opening markers, one closed page: one fewer page than openers
    let lines =
        ["<page>", "<title>one</title>", "</page>", "<page>", "<title>two</title>", "half open"];
    let openers = lines.iter().filter(|l| l.contains("<page>")).count();
    let pages = assemble(&lines);
    assert_eq!(openers, 2);
    assert_eq!(pages.len(), openers - 1);
    assert_eq!(pages[0], "<title>one</title>\n");
}

#[test]
fn empty_page_yields_empty_text() {
    let pages = assemble(&["<page>", "</page>"]);
    assert_eq!(pages, vec![String::new()]);
}

#[test]
fn closing_marker_outside_any_page_is_ignored() {
    let pages = assemble(&["</page>", "x", "<page>", "y", "</page>"]);
    assert_eq!(pages, vec!["y\n".to_string()]);
}

#[test]
fn markers_match_anywhere_in_a_line() {
    let pages = assemble(&["  <page> ", "content", "  </page> "]);
    assert_eq!(pages, vec!["content\n".to_string()]);
}

#[test]
fn opening_line_also_holding_closer_opens_a_page() {
    // outside a page only the opening marker is looked for
    let pages = assemble(&["<page></page>", "body", "</page>"]);
    assert_eq!(pages, vec!["body\n".to_string()]);
}
