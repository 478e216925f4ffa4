use vstd::prelude::*;

verus! {

/// One matched line of a scanned file.
#[derive(Debug, Clone)]
pub struct TodoEntry {
    /// Path of the file, as it was given to the scan.
    pub file_path: String,
    /// Line of the match, counted from 1.
    pub line_number: usize,
    /// The keyword as it appears in the line.
    pub keyword: String,
    /// The whole line, trimmed.
    pub text: String,
    /// Text around the match, when context was asked for.
    pub context: Option<String>,
}

/// What an entry says, as mathematical values.
pub struct EntryModel {
    pub file_path: Seq<char>,
    pub line_number: nat,
    pub keyword: Seq<char>,
    pub text: Seq<char>,
    pub context: Option<Seq<char>>,
}

impl View for TodoEntry {
    type V = EntryModel;

    open spec fn view(&self) -> EntryModel {
        EntryModel {
            file_path: self.file_path@,
            line_number: self.line_number as nat,
            keyword: self.keyword@,
            text: self.text@,
            context: match self.context {
                None => None,
                Some(c) => Some(c@),
            },
        }
    }
}

/// The models of a sequence of entries.
pub open spec fn models(v: Seq<TodoEntry>) -> Seq<EntryModel> {
    v.map_values(|e: TodoEntry| e@)
}

impl TodoEntry {
    pub fn new(file_path: &str, line_number: usize, keyword: &str, text: &str) -> (r: Self)
        ensures
            r.file_path@ == file_path@,
            r.line_number == line_number,
            r.keyword@ == keyword@,
            r.text@ == text@,
            r.context is None,
    {
        TodoEntry {
            file_path: file_path.to_owned(),
            line_number,
            keyword: keyword.to_owned(),
            text: text.to_owned(),
            context: None,
        }
    }

    pub fn with_context(self, context: &str) -> (r: Self)
        ensures
            r.file_path == self.file_path,
            r.line_number == self.line_number,
            r.keyword == self.keyword,
            r.text == self.text,
            r.context matches Some(c) && c@ == context@,
    {
        TodoEntry { context: Some(context.to_owned()), ..self }
    }
}

} // verus!
