use ollama_relay::LineReassembler;

fn feed_str(r: &mut LineReassembler, s: &str) -> Vec<String> {
    r.feed(&s.as_bytes().to_vec())
        .into_iter()
        .map(|l| String::from_utf8(l).unwrap())
        .collect()
}

#[test]
fn whole_input_in_one_chunk() {
    let mut r = LineReassembler::new();
    let lines = feed_str(&mut r, "alpha\nbeta\ngamma\n");
    assert_eq!(lines, vec!["alpha", "beta", "gamma"]);
}

#[test]
fn split_points_do_not_change_the_lines() {
    let text = "alpha\nbeta one\n gamma \ndelta";
    let direct: Vec<String> = {
        let mut r = LineReassembler::new();
        feed_str(&mut r, text)
    };
    // Every two-way split of the same bytes yields the same lines.
    for cut in 0..text.len() {
        if !text.is_char_boundary(cut) {
            continue;
        }
        let mut r = LineReassembler::new();
        let mut got = feed_str(&mut r, &text[..cut]);
        got.extend(feed_str(&mut r, &text[cut..]));
        assert_eq!(got, direct, "split at {}", cut);
    }
}

#[test]
fn line_spanning_two_chunks_is_kept_whole() {
    let mut r = LineReassembler::new();
    assert_eq!(feed_str(&mut r, "hel"), Vec::<String>::new());
    assert_eq!(feed_str(&mut r, "lo\nwor"), vec!["hello"]);
    assert_eq!(feed_str(&mut r, "ld\n"), vec!["world"]);
}

#[test]
fn trailing_partial_line_is_never_emitted() {
    let mut r = LineReassembler::new();
    let lines = feed_str(&mut r, "done\npartial without newline");
    assert_eq!(lines, vec!["done"]);
}

#[test]
fn lines_are_trimmed_of_surrounding_whitespace() {
    let mut r = LineReassembler::new();
    let lines = feed_str(&mut r, "  spaced  \r\n\ttabbed\t\n");
    assert_eq!(lines, vec!["spaced", "tabbed"]);
}

#[test]
fn unicode_whitespace_is_trimmed() {
    let mut r = LineReassembler::new();
    let lines = feed_str(&mut r, "\u{a0}\u{2003}padded\u{a0}\n\u{3000}wide\u{3000}\n\u{85}nel\u{85}\n");
    assert_eq!(lines, vec!["padded", "wide", "nel"]);
    // Interior whitespace is kept; this matches str::trim on each line.
    let mut r2 = LineReassembler::new();
    let lines2 = feed_str(&mut r2, " a\u{a0}b \n");
    assert_eq!(lines2, vec!["a\u{a0}b"]);
    assert_eq!(lines2[0], " a\u{a0}b ".trim());
}

#[test]
fn whitespace_only_line_becomes_empty() {
    let mut r = LineReassembler::new();
    let lines = feed_str(&mut r, "   \nnext\n");
    assert_eq!(lines, vec!["", "next"]);
}

#[test]
fn empty_chunk_yields_nothing_and_keeps_the_buffer() {
    let mut r = LineReassembler::new();
    assert_eq!(feed_str(&mut r, "half"), Vec::<String>::new());
    assert_eq!(feed_str(&mut r, ""), Vec::<String>::new());
    assert_eq!(feed_str(&mut r, " full\n"), vec!["half full"]);
}
