# pdf_speech

A reader that speaks the pages of a PDF aloud in the browser. The verified
library (`src/`) holds its logic:

- `text`: Unicode white-space trimming and one-character replacement, proved
  against short specifications;
- `pattern`: the `regex` crate behind trusted wrappers, with its results named;
- `cleaning`: turning page text into speakable text and splitting it into
  sentences, with the properties of the result proved;
- `book`: the book model handed over by the PDF extractor, page texts and the
  chunks of a page;
- `speech`: which chunk to speak next, what to do when a page is done, and
  voice selection.

`app/` is the Leptos front end: speech synthesis, file upload and the view.
