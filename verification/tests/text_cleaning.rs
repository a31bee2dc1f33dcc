use pdf_speech::cleaning::{chunk_paragraph, clean_pdf_text, spell_out_symbols, trim_chunks};
use pdf_speech::text::{chars_of, is_white_space_char, replace_char, trim_text};

fn clean(s: &str) -> String {
    clean_pdf_text(s).expect("the cleaning patterns compile")
}

fn chunks(s: &str) -> Vec<String> {
    chunk_paragraph(s).expect("the sentence pattern compiles")
}

#[test]
fn trim_text_drops_unicode_white_space_at_both_ends() {
    assert_eq!(trim_text("  hello \t\n"), "hello");
    assert_eq!(trim_text("\u{3000}x y\u{a0}"), "x y");
    assert_eq!(trim_text("   "), "");
    assert_eq!(trim_text(""), "");
    assert_eq!(trim_text("a"), "a");
}

#[test]
fn trim_text_is_idempotent_on_an_example() {
    let once = trim_text("\u{2003} keep  inner  spaces \r\n");
    assert_eq!(once, "keep  inner  spaces");
    assert_eq!(trim_text(&once), once);
}

#[test]
fn white_space_classification() {
    for c in ['\t', '\n', '\u{b}', '\u{c}', '\r', ' ', '\u{85}', '\u{a0}', '\u{1680}', '\u{2000}', '\u{200a}', '\u{2028}', '\u{2029}', '\u{202f}', '\u{205f}', '\u{3000}'] {
        assert!(is_white_space_char(c), "{:?}", c);
        assert!(c.is_whitespace());
    }
    for c in ['a', '0', '\u{200b}', '\u{feff}', '.', '\u{0}'] {
        assert!(!is_white_space_char(c), "{:?}", c);
        assert!(!c.is_whitespace());
    }
}

#[test]
fn chars_of_keeps_every_character() {
    assert_eq!(chars_of("añb€"), vec!['a', 'ñ', 'b', '€']);
    assert!(chars_of("").is_empty());
}

#[test]
fn replace_char_replaces_every_occurrence() {
    assert_eq!(replace_char("a&b&", '&', " and "), "a and b and ");
    assert_eq!(replace_char("none here", '&', " and "), "none here");
    assert_eq!(replace_char("%%", '%', ""), "");
}

#[test]
fn spell_out_symbols_writes_words() {
    assert_eq!(spell_out_symbols("5% of $3 & more"), "5 percent  of  dollars 3  and  more");
    assert_eq!(spell_out_symbols("plain"), "plain");
}

#[test]
fn clean_joins_hyphenated_line_breaks() {
    assert_eq!(clean("inter-\nnational"), "international");
    assert_eq!(clean("A-\n  B"), "AB");
}

#[test]
fn clean_joins_lines() {
    assert_eq!(clean("Line one\nline two"), "Line one line two");
}

#[test]
fn clean_collapses_white_space_and_trims() {
    assert_eq!(clean("  hello  "), "hello");
    assert_eq!(clean(""), "");
}

#[test]
fn clean_spells_out_symbols() {
    assert_eq!(clean("Tom & Jerry"), "Tom  and  Jerry");
    assert_eq!(
        clean("Save 50% on $20 items & more."),
        "Save  percent  on  dollars  items  and  more."
    );
}

#[test]
fn clean_drops_short_numbers_only() {
    assert_eq!(clean("Chapter 12\n\n42\nThe end."), "Chapter   The end.");
    assert_eq!(clean("Price: 12345 units"), "Price: 12345 units");
    assert_eq!(clean("1\n2\n3"), "");
}

#[test]
fn clean_drops_non_ascii_characters() {
    assert_eq!(clean("café – naïve"), "caf  nave");
}

#[test]
fn clean_output_is_plain_single_line_and_trimmed() {
    let inputs = [
        "  Über-\n  all 3 € & 40%\n\n\u{2022} item\t\r\n",
        "Page 7\nThe sea.   Waves rose!",
        "\u{feff}Title\u{00a0}\n\n12\n",
    ];
    for input in inputs {
        let out = clean(input);
        assert_eq!(out.trim(), out);
        assert!(!out.contains('\n'));
        assert!(!out.contains('&') && !out.contains('%') && !out.contains('$'));
        assert!(out.chars().all(|c| c == '\t' || c == '\r' || (' '..='~').contains(&c)));
    }
}

#[test]
fn collapsed_spaces_can_come_back_after_numbers_are_dropped() {
    assert_eq!(clean("a 12 b"), "a  b");
}

#[test]
fn chunk_paragraph_splits_sentences() {
    assert_eq!(chunks("Hello world. How are you? Fine!"), vec!["Hello world.", "How are you?", "Fine!"]);
    assert_eq!(chunks("Wait... what?!"), vec!["Wait...", "what?!"]);
}

#[test]
fn chunk_paragraph_keeps_closing_quotes_and_brackets() {
    assert_eq!(chunks("He said \"Stop.\" Then left"), vec!["He said \"Stop.\""]);
    assert_eq!(chunks("(Yes.) (No.)"), vec!["(Yes.)", "(No.)"]);
}

#[test]
fn chunk_paragraph_without_sentence_end_gives_nothing() {
    assert!(chunks("No punctuation").is_empty());
    assert!(chunks("").is_empty());
}

#[test]
fn chunk_paragraph_trims_each_chunk() {
    assert_eq!(chunks("  A.  B!  "), vec!["A.", "B!"]);
}

#[test]
fn chunks_of_cleaned_text() {
    assert_eq!(chunks(&clean("Page 7\nThe sea.   Waves rose!")), vec!["Page  The sea.", "Waves rose!"]);
}

#[test]
fn trim_chunks_trims_each_string() {
    let input = vec![" a ".to_string(), "b".to_string(), "\t\n".to_string()];
    assert_eq!(trim_chunks(&input), vec!["a", "b", ""]);
}
