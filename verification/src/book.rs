//! The book as the PDF extractor hands it over: metadata and page texts.

use vstd::prelude::*;

use crate::cleaning::{
    chunk_paragraph, chunked, clean_pdf_text, cleaned, cleaning_patterns_accepted,
    sentence_pattern, string_views,
};
use crate::cleaning::is_spelled_symbol;
use crate::pattern::{is_plain_char, regex_accepts};

verus! {

/// Title and author, where the PDF names them.
#[derive(Debug, Clone, PartialEq, Eq)]
pub struct Metadata {
    pub title: Option<String>,
    pub author: Option<String>,
}

/// Counts that describe a book.
#[derive(Debug, Clone, PartialEq, Eq)]
pub struct Stats {
    pub total_pages: usize,
    pub total_words: Option<usize>,
    pub estimated_minutes: Option<usize>,
}

/// One page of extracted text.
#[derive(Debug, Clone, PartialEq, Eq)]
pub struct Page {
    pub page_number: usize,
    pub text: String,
    pub char_count: usize,
}

/// A book: metadata and its pages in order.
#[derive(Debug, Clone, PartialEq, Eq)]
pub struct Book {
    pub metadata: Metadata,
    pub total_pages: u32,
    pub pages: Vec<Page>,
}

impl Default for Metadata {
    fn default() -> (r: Metadata)
        ensures
            r.title is None,
            r.author is None,
    {
        Metadata { title: None, author: None }
    }
}

impl Default for Stats {
    fn default() -> (r: Stats)
        ensures
            r.total_pages == 0,
            r.total_words is None,
            r.estimated_minutes is None,
    {
        Stats { total_pages: 0, total_words: None, estimated_minutes: None }
    }
}

impl Default for Page {
    fn default() -> (r: Page)
        ensures
            r.page_number == 0,
            r.text@.len() == 0,
            r.char_count == 0,
    {
        Page { page_number: 0, text: String::new(), char_count: 0 }
    }
}

impl Default for Book {
    fn default() -> (r: Book)
        ensures
            r.metadata.title is None,
            r.metadata.author is None,
            r.total_pages == 0,
            r.pages@.len() == 0,
    {
        Book {
            metadata: Metadata { title: None, author: None },
            total_pages: 0,
            pages: Vec::new(),
        }
    }
}

/// The text of page `page` of `book`, or the empty text where there is no
/// book or no such page.
pub open spec fn page_text_of(book: Option<Book>, page: int) -> Seq<char> {
    match book {
        Some(b) => if 0 <= page < b.pages@.len() {
            b.pages@[page].text@
        } else {
            Seq::empty()
        },
        None => Seq::empty(),
    }
}

impl Book {
    /// The text of page `page`, or the empty text where there is no such page.
    pub fn page_text(&self, page: usize) -> (r: String)
        ensures
            r@ == page_text_of(Some(*self), page as int),
            page < self.pages@.len() ==> r@ == self.pages@[page as int].text@,
            page >= self.pages@.len() ==> r@.len() == 0,
    {
        if page < self.pages.len() {
            self.pages[page].text.clone()
        } else {
            String::new()
        }
    }

    /// The title to show: the book's title, or "untitled" where it has none.
    pub fn display_title(&self) -> (r: String)
        ensures
            r@ == (match self.metadata.title {
                Some(t) => t@,
                None => "untitled"@,
            }),
            self.metadata.title is None ==> r@ == seq!['u', 'n', 't', 'i', 't', 'l', 'e', 'd'],
            self.metadata.title matches Some(t) ==> r@ == t@,
    {
        proof {
            reveal_strlit("untitled");
            assert("untitled"@ =~= seq!['u', 'n', 't', 'i', 't', 'l', 'e', 'd']);
        }
        match &self.metadata.title {
            Some(t) => t.clone(),
            None => "untitled".to_owned(),
        }
    }
}

/// The speakable chunks of page `page` of `book` (the empty page where there
/// is none): the page text cleaned, then split into sentences.
/// `None` when `regex` refuses one of the patterns.
pub fn chunks_for_page(book: &Option<Book>, page: usize) -> (r: Option<Vec<String>>)
    ensures
        (r is Some) == (cleaning_patterns_accepted() && regex_accepts(sentence_pattern())),
        r matches Some(v) ==> {
            &&& string_views(v@) == chunked(cleaned(page_text_of(*book, page as int)))
            &&& forall|k: int, i: int|
                0 <= k < v@.len() && 0 <= i < v@[k]@.len() ==> {
                    let c = #[trigger] v@[k]@[i];
                    is_plain_char(c) && !is_spelled_symbol(c) && c != '\n'
                }
        },
{
    let text = match book {
        Some(b) => b.page_text(page),
        None => String::new(),
    };
    let clean = match clean_pdf_text(text.as_str()) {
        Some(clean) => clean,
        None => return None,
    };
    let chunks = chunk_paragraph(clean.as_str());
    proof {
        if chunks is Some {
            let v = chunks->0;
            assert forall|k: int, i: int| 0 <= k < v@.len() && 0 <= i < v@[k]@.len() implies {
                let c = #[trigger] v@[k]@[i];
                is_plain_char(c) && !is_spelled_symbol(c) && c != '\n'
            } by {
                let c = v@[k]@[i];
                assert(clean@.contains(c));
                let j = choose|j: int| 0 <= j < clean@.len() && clean@[j] == c;
                assert(is_plain_char(clean@[j]) && !is_spelled_symbol(clean@[j]));
            }
        }
    }
    chunks
}

} // verus!
