use pdf_speech::book::{chunks_for_page, Book, Metadata, Page, Stats};
use pdf_speech::speech::{find_voice, voice_choice, voice_label, PlaybackStep, SpeakStruct};

fn page(n: usize, text: &str) -> Page {
    Page { page_number: n, text: text.to_string(), char_count: text.chars().count() }
}

fn sample_book() -> Book {
    Book {
        metadata: Metadata { title: Some("Sea Tales".to_string()), author: None },
        total_pages: 2,
        pages: vec![page(1, "The sea. Waves\nrose!"), page(2, "12\nThe end & more.")],
    }
}

#[test]
fn defaults_are_empty() {
    let b = Book::default();
    assert_eq!(b.metadata.title, None);
    assert_eq!(b.metadata.author, None);
    assert_eq!(b.total_pages, 0);
    assert!(b.pages.is_empty());
    let s = Stats::default();
    assert_eq!((s.total_pages, s.total_words, s.estimated_minutes), (0, None, None));
    let p = Page::default();
    assert_eq!((p.page_number, p.text.as_str(), p.char_count), (0, "", 0));
    assert_eq!(Metadata::default(), Metadata { title: None, author: None });
}

#[test]
fn page_text_in_and_out_of_range() {
    let b = sample_book();
    assert_eq!(b.page_text(0), "The sea. Waves\nrose!");
    assert_eq!(b.page_text(1), "12\nThe end & more.");
    assert_eq!(b.page_text(2), "");
}

#[test]
fn display_title_falls_back_to_untitled() {
    let mut b = sample_book();
    assert_eq!(b.display_title(), "Sea Tales");
    b.metadata.title = None;
    assert_eq!(b.display_title(), "untitled");
}

#[test]
fn chunks_for_page_cleans_then_splits() {
    let b = Some(sample_book());
    assert_eq!(chunks_for_page(&b, 0).unwrap(), vec!["The sea.", "Waves rose!"]);
    assert_eq!(chunks_for_page(&b, 1).unwrap(), vec!["The end  and  more."]);
    assert!(chunks_for_page(&b, 5).unwrap().is_empty());
    assert!(chunks_for_page(&None, 0).unwrap().is_empty());
}

#[test]
fn new_speaker_is_empty() {
    let s = SpeakStruct::new();
    assert!(s.chunks.is_empty());
    assert_eq!(s.index, 0);
}

#[test]
fn next_chunk_reads_in_order_then_stops() {
    let mut s = SpeakStruct::new();
    s.load(vec!["One.".to_string(), "Two.".to_string(), "Three.".to_string()]);
    assert_eq!(s.next_chunk().as_deref(), Some("One."));
    assert_eq!(s.next_chunk().as_deref(), Some("Two."));
    assert_eq!(s.next_chunk().as_deref(), Some("Three."));
    assert_eq!(s.index, 3);
    assert_eq!(s.next_chunk(), None);
    assert_eq!(s.next_chunk(), None);
    assert_eq!(s.index, 3);
}

#[test]
fn jump_to_moves_the_position() {
    let mut s = SpeakStruct::new();
    s.load(vec!["A.".to_string(), "B.".to_string()]);
    s.jump_to(1);
    assert_eq!(s.next_chunk().as_deref(), Some("B."));
    s.jump_to(0);
    assert_eq!(s.next_chunk().as_deref(), Some("A."));
    s.jump_to(7);
    assert_eq!(s.next_chunk(), None);
}

#[test]
fn load_restarts_from_the_first_chunk() {
    let mut s = SpeakStruct::new();
    s.load(vec!["A.".to_string()]);
    s.next_chunk();
    s.load(vec!["B.".to_string()]);
    assert_eq!(s.index, 0);
    assert_eq!(s.next_chunk().as_deref(), Some("B."));
}

#[test]
fn clone_func_copies_chunks_and_position() {
    let mut s = SpeakStruct::new();
    s.load(vec!["A.".to_string(), "B.".to_string()]);
    s.next_chunk();
    let c = s.clone_func();
    assert_eq!(c, s);
}

#[test]
fn progress_continues_while_chunks_remain() {
    let mut s = SpeakStruct::new();
    assert_eq!(s.progress(0, 3), PlaybackStep::Continue);
    s.load(vec!["A.".to_string(), "B.".to_string()]);
    s.next_chunk();
    assert_eq!(s.progress(0, 3), PlaybackStep::Continue);
}

#[test]
fn progress_turns_the_page_then_finishes() {
    let mut s = SpeakStruct::new();
    s.load(vec!["A.".to_string()]);
    s.next_chunk();
    assert_eq!(s.progress(0, 3), PlaybackStep::NextPage(1));
    assert_eq!(s.progress(1, 3), PlaybackStep::NextPage(2));
    assert_eq!(s.progress(2, 3), PlaybackStep::Finished);
    assert_eq!(s.progress(0, 0), PlaybackStep::Finished);
    assert_eq!(s.progress(usize::MAX, usize::MAX), PlaybackStep::Finished);
}

#[test]
fn find_voice_takes_the_first_match() {
    let uris = vec!["urn:a".to_string(), "urn:b".to_string(), "urn:b".to_string()];
    assert_eq!(find_voice(&uris, &"urn:b".to_string()), Some(1));
    assert_eq!(find_voice(&uris, &"urn:a".to_string()), Some(0));
    assert_eq!(find_voice(&uris, &"urn:c".to_string()), None);
    assert_eq!(find_voice(&Vec::new(), &"urn:a".to_string()), None);
}

#[test]
fn voice_label_names_language_and_kind() {
    assert_eq!(voice_label("Alex", "en-US", true, true), "Alex - en-US [local] [default]");
    assert_eq!(voice_label("Zoe", "fr-FR", false, false), "Zoe - fr-FR [remote]");
}

#[test]
fn voice_choice_treats_empty_as_default_voice() {
    assert_eq!(voice_choice(String::new()), None);
    assert_eq!(voice_choice("urn:x".to_string()), Some("urn:x".to_string()));
}
