//! Which chunk to speak next, what to do when a page has been spoken, and
//! which voice to use.

use vstd::prelude::*;

use crate::cleaning::string_views;

verus! {

/// The chunks of the current page and the position of the next one to speak.
#[derive(Debug, Clone, PartialEq, Eq)]
pub struct SpeakStruct {
    pub chunks: Vec<String>,
    pub index: usize,
}

/// One step of speaking: from position `index`, the chunk spoken (if any)
/// and the position after it.
pub open spec fn speak_step(chunks: Seq<Seq<char>>, index: nat) -> (nat, Option<Seq<char>>) {
    if index < chunks.len() {
        (index + 1, Some(chunks[index as int]))
    } else {
        (index, None)
    }
}

/// The text of a chunk handed out, if any.
pub open spec fn chunk_view(r: Option<String>) -> Option<Seq<char>> {
    match r {
        Some(s) => Some(s@),
        None => None,
    }
}

/// The chunks spoken by `steps` successive steps from position `index`.
pub open spec fn spoken(chunks: Seq<Seq<char>>, index: nat, steps: nat) -> Seq<Seq<char>>
    decreases steps,
{
    if steps == 0 {
        Seq::empty()
    } else {
        let (next, said) = speak_step(chunks, index);
        match said {
            Some(c) => seq![c] + spoken(chunks, next, (steps - 1) as nat),
            None => spoken(chunks, next, (steps - 1) as nat),
        }
    }
}

/// Speaking from a position reads the chunks that follow it in order, each
/// once, and nothing after the last one.
pub proof fn lemma_spoken_in_order(chunks: Seq<Seq<char>>, index: nat, steps: nat)
    requires
        index <= chunks.len(),
    ensures
        spoken(chunks, index, steps) == chunks.subrange(
            index as int,
            if index + steps <= chunks.len() {
                (index + steps) as int
            } else {
                chunks.len() as int
            },
        ),
    decreases steps,
{
    if steps > 0 {
        if index < chunks.len() {
            lemma_spoken_in_order(chunks, index + 1, (steps - 1) as nat);
            let end = if index + steps <= chunks.len() {
                (index + steps) as int
            } else {
                chunks.len() as int
            };
            assert(seq![chunks[index as int]] + chunks.subrange(index as int + 1, end) =~= chunks.subrange(
                index as int,
                end,
            ));
        } else {
            lemma_spoken_in_order(chunks, index, (steps - 1) as nat);
        }
    } else {
        assert(chunks.subrange(index as int, index as int) =~= Seq::<Seq<char>>::empty());
    }
}

/// What to do once the current chunk has been spoken.
#[derive(Debug, Clone, Copy, PartialEq, Eq, Structural)]
pub enum PlaybackStep {
    /// Keep going on this page.
    Continue,
    /// The page is done: go on with this page.
    NextPage(usize),
    /// The last page is done.
    Finished,
}

impl SpeakStruct {
    /// No chunks, at position 0.
    pub fn new() -> (r: SpeakStruct)
        ensures
            r.chunks@.len() == 0,
            r.index == 0,
    {
        SpeakStruct { chunks: Vec::new(), index: 0 }
    }

    /// A copy with the same chunks and position.
    pub fn clone_func(&self) -> (r: SpeakStruct)
        ensures
            r.chunks@ == self.chunks@,
            r.index == self.index,
    {
        let mut chunks: Vec<String> = Vec::new();
        for i in 0..self.chunks.len()
            invariant
                chunks@ == self.chunks@.take(i as int),
        {
            chunks.push(self.chunks[i].clone());
            assert(chunks@ =~= self.chunks@.take(i + 1));
        }
        assert(self.chunks@.take(self.chunks@.len() as int) =~= self.chunks@);
        SpeakStruct { chunks, index: self.index }
    }

    /// Starts over on new chunks.
    pub fn load(&mut self, chunks: Vec<String>)
        ensures
            final(self).chunks == chunks,
            final(self).index == 0,
    {
        self.chunks = chunks;
        self.index = 0;
    }

    /// Moves to chunk `index`, as a click on a paragraph does.
    pub fn jump_to(&mut self, index: usize)
        ensures
            final(self).chunks == old(self).chunks,
            final(self).index == index,
    {
        self.index = index;
    }

    /// The chunk to speak now, moving past it; `None` once every chunk has
    /// been spoken.
    pub fn next_chunk(&mut self) -> (r: Option<String>)
        ensures
            final(self).chunks == old(self).chunks,
            (final(self).index as nat, chunk_view(r)) == speak_step(
                string_views(old(self).chunks@),
                old(self).index as nat,
            ),
    {
        if self.index >= self.chunks.len() {
            return None;
        }
        let text = self.chunks[self.index].clone();
        self.index = self.index + 1;
        Some(text)
    }

    /// What to do after an utterance ends, on page `current_page` of a book
    /// with `total_pages` pages: once every chunk of a non-empty page has
    /// been spoken, go on with the next page, or finish after the last one.
    pub fn progress(&self, current_page: usize, total_pages: usize) -> (r: PlaybackStep)
        ensures
            !(self.chunks@.len() > 0 && self.index >= self.chunks@.len()) ==> r
                == PlaybackStep::Continue,
            self.chunks@.len() > 0 && self.index >= self.chunks@.len() && current_page + 1
                < total_pages ==> r == PlaybackStep::NextPage((current_page + 1) as usize),
            self.chunks@.len() > 0 && self.index >= self.chunks@.len() && current_page + 1
                >= total_pages ==> r == PlaybackStep::Finished,
            r matches PlaybackStep::NextPage(p) ==> p < total_pages,
    {
        let len = self.chunks.len();
        if len > 0 && self.index >= len {
            if total_pages > 0 && current_page < total_pages - 1 {
                PlaybackStep::NextPage(current_page + 1)
            } else {
                PlaybackStep::Finished
            }
        } else {
            PlaybackStep::Continue
        }
    }
}

/// The position of the first voice whose URI is `selected`, if any.
pub fn find_voice(voice_uris: &Vec<String>, selected: &String) -> (r: Option<usize>)
    ensures
        match r {
            Some(i) => i < voice_uris@.len() && voice_uris@[i as int]@ == selected@ && forall|
                j: int,
            | 0 <= j < i ==> (#[trigger] voice_uris@[j])@ != selected@,
            None => forall|j: int|
                0 <= j < voice_uris@.len() ==> (#[trigger] voice_uris@[j])@ != selected@,
        },
{
    for i in 0..voice_uris.len()
        invariant
            forall|j: int| 0 <= j < i ==> (#[trigger] voice_uris@[j])@ != selected@,
    {
        if voice_uris[i] == *selected {
            return Some(i);
        }
    }
    None
}

/// The label of a voice in the voice list: its name, its language, whether
/// it is local or remote, and whether it is the default voice.
pub fn voice_label(name: &str, lang: &str, local_service: bool, is_default: bool) -> (r: String)
    ensures
        r@ == name@ + " - "@ + lang@ + (if local_service {
            " [local]"@
        } else {
            " [remote]"@
        }) + (if is_default {
            " [default]"@
        } else {
            ""@
        }),
        r@ == name@ + seq![' ', '-', ' '] + lang@ + (if local_service {
            seq![' ', '[', 'l', 'o', 'c', 'a', 'l', ']']
        } else {
            seq![' ', '[', 'r', 'e', 'm', 'o', 't', 'e', ']']
        }) + (if is_default {
            seq![' ', '[', 'd', 'e', 'f', 'a', 'u', 'l', 't', ']']
        } else {
            Seq::empty()
        }),
{
    proof {
        reveal_strlit(" - ");
        reveal_strlit(" [local]");
        reveal_strlit(" [remote]");
        reveal_strlit(" [default]");
        reveal_strlit("");
        assert(" - "@ =~= seq![' ', '-', ' ']);
        assert(" [local]"@ =~= seq![' ', '[', 'l', 'o', 'c', 'a', 'l', ']']);
        assert(" [remote]"@ =~= seq![' ', '[', 'r', 'e', 'm', 'o', 't', 'e', ']']);
        assert(" [default]"@ =~= seq![' ', '[', 'd', 'e', 'f', 'a', 'u', 'l', 't', ']']);
        assert(""@ =~= Seq::<char>::empty());
    }
    let mut r = name.to_owned();
    r.append(" - ");
    r.append(lang);
    if local_service {
        r.append(" [local]");
    } else {
        r.append(" [remote]");
    }
    if is_default {
        r.append(" [default]");
    } else {
        proof {
            reveal_strlit("");
            assert(r@ =~= r@ + ""@);
        }
    }
    r
}

/// The voice chosen in the voice list: none for the empty entry ("Default
/// voice"), else the voice with that URI.
pub fn voice_choice(value: String) -> (r: Option<String>)
    ensures
        value@.len() == 0 ==> r is None,
        value@.len() > 0 ==> r == Some(value),
{
    if value.as_str().is_empty() {
        None
    } else {
        Some(value)
    }
}

} // verus!
