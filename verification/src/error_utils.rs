use crate::text::{
    byte_len, byte_offset, debug_text, decimal, decimal_chars, find_chars, find_from,
    lemma_nth_line_bytes, nth_line, nth_line_of, pad_left, push_all, push_padded, push_repeat,
    push_str, repeat_char, str_debug, str_to_chars, string_from_chars,
};
use vstd::prelude::*;

verus! {

/// The two lines that show `substr` under `line` (line number
/// `line_number`): the numbered line, then carets under the first
/// occurrence of `substr`, indented by its byte offset. `None` when
/// `substr` does not occur.
pub open spec fn highlight_spec(line_number: nat, line: Seq<char>, substr: Seq<char>) -> Option<
    Seq<char>,
> {
    match find_from(line, substr, 0) {
        None => None,
        Some(k) => Some(
            pad_left(decimal(line_number), 4) + " | "@ + line + "\n     | "@ + repeat_char(
                ' ',
                byte_len(line.take(k)),
            ) + repeat_char('^', substr.len()),
        ),
    }
}

/// Shows `substr` under `line`; see `highlight_spec`.
pub fn highlight_line_selection(line_number: usize, line: &str, substr: &str) -> (res: Option<
    String,
>)
    requires
        byte_len(line@) <= usize::MAX,
    ensures
        match res {
            Some(s) => highlight_spec(line_number as nat, line@, substr@) == Some(s@),
            None => highlight_spec(line_number as nat, line@, substr@) is None,
        },
{
    let line_chars = str_to_chars(line);
    let sub_chars = str_to_chars(substr);
    let start = match find_chars(&line_chars, &sub_chars) {
        Some(k) => k,
        None => {
            return None;
        },
    };
    proof {
        crate::text::lemma_find_from_bound(line@, substr@, 0);
    }
    let start_index = byte_offset(&line_chars, start);
    let substr_length = sub_chars.len();
    let mut out: Vec<char> = Vec::new();
    push_padded(&mut out, &decimal_chars(line_number), 4);
    push_str(&mut out, " | ");
    push_all(&mut out, &line_chars);
    push_str(&mut out, "\n     | ");
    push_repeat(&mut out, ' ', start_index);
    push_repeat(&mut out, '^', substr_length);
    proof {
        assert(out@ =~= highlight_spec(line_number as nat, line@, substr@)->0);
    }
    Some(string_from_chars(&out))
}


/// An error of one stage (scanning, parsing or evaluation), ready to be
/// shown against the source: its line, its message, the text to point
/// at, the stage, and the errors that caused it.
#[derive(Debug)]
pub struct StageError {
    pub line: Option<usize>,
    pub message: String,
    pub error_location: Option<String>,
    pub stage: &'static str,
    pub children: Vec<StageError>,
}

/// The model of a `StageError`: texts as characters.
pub struct SStageError {
    pub line: Option<usize>,
    pub message: Seq<char>,
    pub error_location: Option<Seq<char>>,
    pub stage: Seq<char>,
    pub children: Seq<SStageError>,
}

pub open spec fn stage_view(e: StageError) -> SStageError
    decreases e,
{
    SStageError {
        line: e.line,
        message: e.message@,
        error_location: match e.error_location {
            Some(l) => Some(l@),
            None => None,
        },
        stage: e.stage@,
        children: stages_view(e.children@),
    }
}

pub open spec fn stages_view(v: Seq<StageError>) -> Seq<SStageError>
    decreases v,
{
    if v.len() == 0 {
        Seq::empty()
    } else {
        stages_view(v.drop_last()).push(stage_view(v.last()))
    }
}

impl View for StageError {
    type V = SStageError;

    open spec fn view(&self) -> SStageError {
        stage_view(*self)
    }
}

pub proof fn lemma_stages_view(v: Seq<StageError>)
    ensures
        stages_view(v).len() == v.len(),
        forall|i: int| 0 <= i < v.len() ==> #[trigger] stages_view(v)[i] == stage_view(v[i]),
    decreases v.len(),
{
    if v.len() > 0 {
        lemma_stages_view(v.drop_last());
        assert forall|i: int| 0 <= i < v.len() implies #[trigger] stages_view(v)[i] == stage_view(v[i]) by {
            if i < v.len() - 1 {
                assert(v.drop_last()[i] == v[i]);
            }
        }
    }
}

/// How `{:?}` shows an optional number.
pub open spec fn option_debug(o: Option<usize>) -> Seq<char> {
    match o {
        Some(n) => "Some("@ + decimal(n as nat) + ")"@,
        None => "None"@,
    }
}

/// How `{:?}` shows an optional text.
pub open spec fn option_text_debug(o: Option<Seq<char>>) -> Seq<char> {
    match o {
        Some(s) => "Some("@ + str_debug(s) + ")"@,
        None => "None"@,
    }
}

/// How `{:?}` shows a stage error.
pub open spec fn stage_debug(e: SStageError) -> Seq<char>
    decreases e,
{
    "StageError { line: "@ + option_debug(e.line) + ", message: "@ + str_debug(e.message)
        + ", error_location: "@ + option_text_debug(e.error_location) + ", stage: "@ + str_debug(
        e.stage,
    ) + ", children: ["@ + stages_debug(e.children) + "] }"@
}

/// The `{:?}` texts of `v`, separated by `, `.
pub open spec fn stages_debug(v: Seq<SStageError>) -> Seq<char>
    decreases v,
{
    if v.len() == 0 {
        Seq::empty()
    } else if v.len() == 1 {
        stage_debug(v[0])
    } else {
        stages_debug(v.drop_last()) + ", "@ + stage_debug(v.last())
    }
}

/// The source line that line `line` (from 1) names, or `EOF`; line 0
/// names no line.
pub open spec fn stage_source_line(source: Seq<char>, line: usize) -> Seq<char> {
    if line == 0 {
        "EOF"@
    } else {
        match nth_line(source, (line - 1) as nat) {
            Some(l) => l,
            None => "EOF"@,
        }
    }
}

/// The report for `e` alone, without its causes.
pub open spec fn stage_head(e: SStageError, source: Seq<char>) -> Seq<char> {
    match e.line {
        None => "Error during "@ + e.stage + ": "@ + e.message,
        Some(line) => {
            let source_line = stage_source_line(source, line);
            match e.error_location {
                None => "Error during "@ + e.stage + ": "@ + e.message + "\n "@ + pad_left(
                    decimal(line as nat),
                    3,
                ) + " | "@ + source_line,
                Some(location) => match highlight_spec(line as nat, source_line, location) {
                    None => "Errored generating the error message for "@ + stage_debug(e)
                        + "\nCouldn't find "@ + str_debug(location) + " in "@ + str_debug(
                        source_line,
                    ),
                    Some(selection) => "Error during scanning: "@ + e.message + "\n"@ + selection,
                },
            }
        },
    }
}

/// The report for `e`: its own, then that of each cause on new lines.
pub open spec fn stage_message(e: SStageError, source: Seq<char>) -> Seq<char>
    decreases e,
{
    stage_head(e, source) + causes_message(e.children, source)
}

/// The reports of `v`, each after a newline.
pub open spec fn causes_message(v: Seq<SStageError>, source: Seq<char>) -> Seq<char>
    decreases v,
{
    if v.len() == 0 {
        Seq::empty()
    } else {
        causes_message(v.drop_last(), source) + "\n"@ + stage_message(v.last(), source)
    }
}

/// The `{:?}` text of a text.
fn push_debug(out: &mut Vec<char>, s: &str)
    ensures
        final(out)@ == old(out)@ + str_debug(s@),
{
    let d = debug_text(s);
    push_str(out, d.as_str());
}

impl StageError {
    /// The `{:?}` text of this error.
    pub fn debug(&self) -> (res: Vec<char>)
        ensures
            res@ == stage_debug(self@),
        decreases self,
    {
        let mut out: Vec<char> = Vec::new();
        push_str(&mut out, "StageError { line: ");
        match self.line {
            Some(n) => {
                push_str(&mut out, "Some(");
                push_all(&mut out, &decimal_chars(n));
                push_str(&mut out, ")");
            },
            None => push_str(&mut out, "None"),
        }
        push_str(&mut out, ", message: ");
        push_debug(&mut out, self.message.as_str());
        push_str(&mut out, ", error_location: ");
        match &self.error_location {
            Some(l) => {
                push_str(&mut out, "Some(");
                push_debug(&mut out, l.as_str());
                push_str(&mut out, ")");
            },
            None => push_str(&mut out, "None"),
        }
        push_str(&mut out, ", stage: ");
        push_debug(&mut out, self.stage);
        push_str(&mut out, ", children: [");
        let ghost kids = stages_view(self.children@);
        proof {
            lemma_stages_view(self.children@);
        }
        let mut listed: Vec<char> = Vec::new();
        for i in 0..self.children.len()
            invariant
                kids == stages_view(self.children@),
                kids.len() == self.children@.len(),
                forall|j: int| 0 <= j < self.children@.len() ==> #[trigger] kids[j] == stage_view(self.children@[j]),
                listed@ == stages_debug(kids.take(i as int)),
        {
            proof {
                assert(decreases_to!(*self => self.children@[i as int]));
            }
            let d = self.children[i].debug();
            if i > 0 {
                push_str(&mut listed, ", ");
            }
            push_all(&mut listed, &d);
            proof {
                assert(kids.take(i + 1).drop_last() =~= kids.take(i as int));
                if i == 0 {
                    assert(kids.take(1) =~= seq![kids[0]]);
                }
            }
        }
        proof {
            assert(kids.take(self.children.len() as int) =~= kids);
        }
        push_all(&mut out, &listed);
        push_str(&mut out, "] }");
        assert(out@ =~= stage_debug(self@));
        out
    }

    /// The report for this error in `source_string`: see `stage_message`.
    pub fn generate_error_message(&self, source_string: &str) -> (res: String)
        requires
            byte_len(source_string@) <= usize::MAX,
        ensures
            res@ == stage_message(self@, source_string@),
        decreases self,
    {
        let mut out = self.head(source_string);
        let ghost kids = stages_view(self.children@);
        proof {
            lemma_stages_view(self.children@);
        }
        for i in 0..self.children.len()
            invariant
                kids == stages_view(self.children@),
                kids.len() == self.children@.len(),
                forall|j: int| 0 <= j < self.children@.len() ==> #[trigger] kids[j] == stage_view(self.children@[j]),
                byte_len(source_string@) <= usize::MAX,
                out@ == stage_head(self@, source_string@) + causes_message(kids.take(i as int), source_string@),
        {
            proof {
                assert(decreases_to!(*self => self.children@[i as int]));
            }
            let m = self.children[i].generate_error_message(source_string);
            push_str(&mut out, "\n");
            push_str(&mut out, m.as_str());
            proof {
                assert(kids.take(i + 1).drop_last() =~= kids.take(i as int));
            }
        }
        proof {
            assert(kids.take(self.children.len() as int) =~= kids);
        }
        assert(out@ =~= stage_message(self@, source_string@));
        string_from_chars(&out)
    }

    /// The report for this error alone.
    fn head(&self, source_string: &str) -> (res: Vec<char>)
        requires
            byte_len(source_string@) <= usize::MAX,
        ensures
            res@ == stage_head(self@, source_string@),
    {
        let mut out: Vec<char> = Vec::new();
        match self.line {
            None => {
                push_str(&mut out, "Error during ");
                push_str(&mut out, self.stage);
                push_str(&mut out, ": ");
                push_str(&mut out, self.message.as_str());
            },
            Some(line) => {
                let found = if line == 0 {
                    None
                } else {
                    nth_line_of(source_string, line - 1)
                };
                let source_line = match found {
                    Some(l) => l,
                    None => "EOF",
                };
                proof {
                    if line > 0 {
                        lemma_nth_line_bytes(source_string@, (line - 1) as nat);
                    }
                    assert(byte_len("EOF"@) <= usize::MAX) by {
                        reveal_strlit("EOF");
                        reveal_with_fuel(byte_len, 4);
                    }
                    assert(source_line@ == stage_source_line(source_string@, line));
                }
                match &self.error_location {
                    None => {
                        push_str(&mut out, "Error during ");
                        push_str(&mut out, self.stage);
                        push_str(&mut out, ": ");
                        push_str(&mut out, self.message.as_str());
                        push_str(&mut out, "\n ");
                        push_padded(&mut out, &decimal_chars(line), 3);
                        push_str(&mut out, " | ");
                        push_str(&mut out, source_line);
                    },
                    Some(location) => match highlight_line_selection(line, source_line, location.as_str()) {
                        Some(selection) => {
                            push_str(&mut out, "Error during scanning: ");
                            push_str(&mut out, self.message.as_str());
                            push_str(&mut out, "\n");
                            push_str(&mut out, selection.as_str());
                        },
                        None => {
                            push_str(&mut out, "Errored generating the error message for ");
                            let d = self.debug();
                            push_all(&mut out, &d);
                            push_str(&mut out, "\nCouldn't find ");
                            push_debug(&mut out, location.as_str());
                            push_str(&mut out, " in ");
                            push_debug(&mut out, source_line);
                        },
                    },
                }
            },
        }
        assert(out@ =~= stage_head(self@, source_string@));
        out
    }
}

/// Each report followed by a blank line.
pub open spec fn stage_reports(v: Seq<SStageError>, source: Seq<char>) -> Seq<char>
    decreases v.len(),
{
    if v.len() == 0 {
        Seq::empty()
    } else {
        stage_reports(v.drop_last(), source) + stage_message(v.last(), source) + "\n\n"@
    }
}

/// The reports of several errors, separated by blank lines and ending in
/// one newline.
#[derive(Debug)]
pub struct FlattenedError {
    error_message: String,
}

impl View for FlattenedError {
    type V = Seq<char>;

    closed spec fn view(&self) -> Seq<char> {
        self.error_message@
    }
}

impl FlattenedError {
    /// Reports `errors`, which refer to `source`.
    pub fn flatten(errors: Vec<StageError>, source: &str) -> (res: Self)
        requires
            errors.len() > 0,
            byte_len(source@) <= usize::MAX,
        ensures
            res@ == stage_reports(stages_view(errors@), source@).drop_last(),
    {
        let ghost all = stages_view(errors@);
        proof {
            lemma_stages_view(errors@);
        }
        let mut out: Vec<char> = Vec::new();
        for i in 0..errors.len()
            invariant
                all == stages_view(errors@),
                all.len() == errors@.len(),
                forall|j: int| 0 <= j < errors@.len() ==> #[trigger] all[j] == stage_view(errors@[j]),
                byte_len(source@) <= usize::MAX,
                out@ == stage_reports(all.take(i as int), source@),
        {
            let m = errors[i].generate_error_message(source);
            push_str(&mut out, m.as_str());
            push_str(&mut out, "\n\n");
            proof {
                assert(all.take(i + 1).drop_last() =~= all.take(i as int));
            }
        }
        proof {
            assert(all.take(errors.len() as int) =~= all);
            reveal_strlit("\n\n");
            assert(out@.len() > 0);
        }
        out.pop();
        FlattenedError { error_message: string_from_chars(&out) }
    }

    /// The report text.
    pub fn to_string(&self) -> (res: String)
        ensures
            res@ == self@,
    {
        self.error_message.clone()
    }
}

} // verus!
