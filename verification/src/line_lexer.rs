//! The line tokenizer: classifies each physical line of a backing file as
//! one of the recognized line shapes, and rejects every other non-blank
//! line.

use vstd::prelude::*;

use crate::error::AwsError;
use crate::text::{
    find_char, index_of_char, spec_lines, spec_trim, split_lines, starts_with_char, str_eq, trim,
    ends_with_char,
};

verus! {

/// One tokenized line of a backing file.
#[derive(Debug)]
pub enum EntryLine {
    /// A line that is blank after trimming.
    Empty,
    /// A free-text comment: `# <text>` matching no other commented shape.
    Comment(String),
    /// The sentinel comment `# production`.
    ProductionMarker,
    /// An active header line `[<name>]`.
    Header(String),
    /// An active `<key> = <value>` line.
    KeyValue(String, String),
    /// A commented-out header line `# [<name>]`.
    LockedHeader(String),
    /// A commented-out `# <key> = <value>` line.
    LockedKeyValue(String, String),
}

impl PartialEq for EntryLine {
    fn eq(&self, other: &Self) -> bool {
        match (self, other) {
            (EntryLine::Empty, EntryLine::Empty) => true,
            (EntryLine::Comment(a), EntryLine::Comment(b)) => *a == *b,
            (EntryLine::ProductionMarker, EntryLine::ProductionMarker) => true,
            (EntryLine::Header(a), EntryLine::Header(b)) => *a == *b,
            (EntryLine::KeyValue(a, c), EntryLine::KeyValue(b, d)) => *a == *b && *c == *d,
            (EntryLine::LockedHeader(a), EntryLine::LockedHeader(b)) => *a == *b,
            (EntryLine::LockedKeyValue(a, c), EntryLine::LockedKeyValue(b, d)) => *a == *b && *c
                == *d,
            _ => false,
        }
    }
}

impl Eq for EntryLine {

}

impl vstd::std_specs::cmp::PartialEqSpecImpl for EntryLine {
    open spec fn obeys_eq_spec() -> bool {
        true
    }

    open spec fn eq_spec(&self, other: &Self) -> bool {
        self.deep_view() == other.deep_view()
    }
}

impl Clone for EntryLine {
    fn clone(&self) -> (r: Self)
        ensures
            r == *self,
    {
        match self {
            EntryLine::Empty => EntryLine::Empty,
            EntryLine::Comment(s) => EntryLine::Comment(s.clone()),
            EntryLine::ProductionMarker => EntryLine::ProductionMarker,
            EntryLine::Header(s) => EntryLine::Header(s.clone()),
            EntryLine::KeyValue(k, v) => EntryLine::KeyValue(k.clone(), v.clone()),
            EntryLine::LockedHeader(s) => EntryLine::LockedHeader(s.clone()),
            EntryLine::LockedKeyValue(k, v) => EntryLine::LockedKeyValue(k.clone(), v.clone()),
        }
    }
}

/// The mathematical image of an `EntryLine`.
#[verifier::ext_equal]
pub enum LineV {
    Empty,
    Comment(Seq<char>),
    ProductionMarker,
    Header(Seq<char>),
    KeyValue(Seq<char>, Seq<char>),
    LockedHeader(Seq<char>),
    LockedKeyValue(Seq<char>, Seq<char>),
}

impl DeepView for EntryLine {
    type V = LineV;

    open spec fn deep_view(&self) -> LineV {
        match self {
            EntryLine::Empty => LineV::Empty,
            EntryLine::Comment(s) => LineV::Comment(s@),
            EntryLine::ProductionMarker => LineV::ProductionMarker,
            EntryLine::Header(s) => LineV::Header(s@),
            EntryLine::KeyValue(k, v) => LineV::KeyValue(k@, v@),
            EntryLine::LockedHeader(s) => LineV::LockedHeader(s@),
            EntryLine::LockedKeyValue(k, v) => LineV::LockedKeyValue(k@, v@),
        }
    }
}

// ------------------------------------------------------------------
// Line classification, specified
// ------------------------------------------------------------------

/// Does the line begin, after trimming, with a `#`?
pub open spec fn is_commented(line: Seq<char>) -> bool {
    spec_trim(line).len() > 0 && spec_trim(line)[0] == '#'
}

/// What remains of a commented line once the `#` and the whitespace around
/// it are stripped.
pub open spec fn commented_inner(line: Seq<char>) -> Seq<char> {
    spec_trim(spec_trim(line).drop_first())
}

/// Classification of a commented line. Locked data is recognized by shape;
/// anything else is a plain comment.
pub open spec fn classify_commented(line: Seq<char>) -> LineV {
    let inner = commented_inner(line);
    if inner == "production"@ {
        LineV::ProductionMarker
    } else if inner.len() > 0 && inner[0] == '[' && inner.last() == ']' {
        LineV::LockedHeader(inner.subrange(1, inner.len() - 1))
    } else if inner.contains('=') {
        let i = find_char(inner, '=');
        LineV::LockedKeyValue(spec_trim(inner.take(i)), spec_trim(inner.skip(i + 1)))
    } else {
        LineV::Comment(inner)
    }
}

/// Classification of an uncommented line; `None` means the line matches no
/// recognized shape.
pub open spec fn classify_uncommented(line: Seq<char>) -> Option<LineV> {
    if line.len() > 0 && line[0] == '[' && line.last() == ']' {
        Some(LineV::Header(line.subrange(1, line.len() - 1)))
    } else if line.contains('=') {
        let i = find_char(line, '=');
        Some(LineV::KeyValue(spec_trim(line.take(i)), spec_trim(line.skip(i + 1))))
    } else if spec_trim(line).len() == 0 {
        Some(LineV::Empty)
    } else {
        None
    }
}

/// Total classification of one line; `None` means the line is malformed.
pub open spec fn tokenize_line(line: Seq<char>) -> Option<LineV> {
    if is_commented(line) {
        Some(classify_commented(line))
    } else {
        classify_uncommented(line)
    }
}

/// Tokenization of a line sequence: the tokens of every line, or the first
/// malformed line.
pub open spec fn spec_tokenize(lines: Seq<Seq<char>>) -> Result<Seq<LineV>, Seq<char>>
    decreases lines.len(),
{
    if lines.len() == 0 {
        Ok(Seq::empty())
    } else {
        match tokenize_line(lines[0]) {
            None => Err(lines[0]),
            Some(t) => match spec_tokenize(lines.drop_first()) {
                Ok(ts) => Ok(seq![t] + ts),
                Err(e) => Err(e),
            },
        }
    }
}

/// Tokenizer totality: classification is a function of the line alone, a
/// commented line always tokenizes, and an uncommented line tokenizes
/// exactly when it is a header, holds an `=`, or is blank — so the only
/// failure is a non-blank, uncommented line of no recognized shape.
pub proof fn lemma_tokenize_line_total(line: Seq<char>)
    ensures
        is_commented(line) ==> tokenize_line(line) is Some,
        tokenize_line(line) is None <==> {
            &&& !is_commented(line)
            &&& !(line.len() > 0 && line[0] == '[' && line.last() == ']')
            &&& !line.contains('=')
            &&& spec_trim(line).len() > 0
        },
{
}

// ------------------------------------------------------------------
// Line classification, executed
// ------------------------------------------------------------------

/// Tokenize a line whose trimmed form starts with `#`.
fn tokenize_commented(line: &str) -> (r: EntryLine)
    requires
        is_commented(line@),
    ensures
        r.deep_view() == classify_commented(line@),
{
    let trimmed = trim(line);
    let tn = trimmed.unicode_len();
    let after = trimmed.substring_char(1, tn);
    proof {
        assert(after@ =~= spec_trim(line@).drop_first());
    }
    let inner = trim(after);
    let n = inner.unicode_len();
    if str_eq(inner, "production") {
        EntryLine::ProductionMarker
    } else if starts_with_char(inner, '[') && ends_with_char(inner, ']') {
        proof {
            if n == 1 {
                assert(inner@[0] == '[' && inner@.last() == ']');
            }
        }
        EntryLine::LockedHeader(inner.substring_char(1, n - 1).to_owned())
    } else if let Some(i) = index_of_char(inner, '=') {
        let left = trim(inner.substring_char(0, i));
        let right = trim(inner.substring_char(i + 1, n));
        proof {
            assert(inner@.subrange(0, i as int) =~= inner@.take(i as int));
            assert(inner@.subrange(i as int + 1, n as int) =~= inner@.skip(i as int + 1));
        }
        EntryLine::LockedKeyValue(left.to_owned(), right.to_owned())
    } else {
        EntryLine::Comment(inner.to_owned())
    }
}

/// Tokenize a line whose trimmed form does not start with `#`.
fn tokenize_uncommented(line: &str) -> (r: Result<EntryLine, AwsError>)
    ensures
        match r {
            Ok(t) => classify_uncommented(line@) == Some(t.deep_view()),
            Err(e) => classify_uncommented(line@) is None && e.deep_view()
                == crate::error::ErrV::MalformedLine(line@),
        },
{
    let n = line.unicode_len();
    if starts_with_char(line, '[') && ends_with_char(line, ']') {
        proof {
            if n == 1 {
                assert(line@[0] == '[' && line@.last() == ']');
            }
        }
        Ok(EntryLine::Header(line.substring_char(1, n - 1).to_owned()))
    } else if let Some(i) = index_of_char(line, '=') {
        let left = trim(line.substring_char(0, i));
        let right = trim(line.substring_char(i + 1, n));
        proof {
            assert(line@.subrange(0, i as int) =~= line@.take(i as int));
            assert(line@.subrange(i as int + 1, n as int) =~= line@.skip(i as int + 1));
        }
        Ok(EntryLine::KeyValue(left.to_owned(), right.to_owned()))
    } else {
        let t = trim(line);
        if t.unicode_len() == 0 {
            Ok(EntryLine::Empty)
        } else {
            Err(AwsError::MalformedLine(line.to_owned()))
        }
    }
}

// ------------------------------------------------------------------
// The lexer
// ------------------------------------------------------------------

/// Tokenizer over the lines of one backing file's text.
#[derive(Debug, Clone)]
pub struct EntryLineLexer {
    lines: Vec<String>,
}

impl EntryLineLexer {
    /// The lines the lexer was built over.
    pub closed spec fn lines_view(&self) -> Seq<Seq<char>> {
        self.lines.deep_view()
    }

    /// Split `contents` into lines, ready for tokenization.
    pub fn new(contents: &str) -> (r: Self)
        ensures
            r.lines_view() == spec_lines(contents@),
    {
        EntryLineLexer { lines: split_lines(contents) }
    }

    /// Tokenize all lines: every line's token in order, or the first
    /// malformed line as a `MalformedLine` error.
    pub fn tokenize(&self) -> (r: Result<Vec<EntryLine>, AwsError>)
        ensures
            match r {
                Ok(v) => spec_tokenize(self.lines_view()) == Ok::<Seq<LineV>, Seq<char>>(
                    v.deep_view(),
                ),
                Err(e) => {
                    &&& spec_tokenize(self.lines_view()) matches Err(bad) && e.deep_view()
                        == crate::error::ErrV::MalformedLine(bad)
                },
            },
    {
        let ghost all = self.lines.deep_view();
        let n = self.lines.len();
        let mut res: Vec<EntryLine> = Vec::new();
        let mut index: usize = 0;
        proof {
            assert(res.deep_view() =~= Seq::<LineV>::empty());
            assert(all.skip(0) =~= all);
        }
        while index < n
            invariant
                0 <= index <= n,
                n == self.lines.len(),
                all == self.lines.deep_view(),
                match spec_tokenize(all) {
                    Ok(ts) => {
                        &&& spec_tokenize(all.skip(index as int)) matches Ok(rest)
                        &&& ts == res.deep_view() + rest
                    },
                    Err(e) => spec_tokenize(all.skip(index as int)) == Err::<
                        Seq<LineV>,
                        Seq<char>,
                    >(e),
                },
            decreases n - index,
        {
            let ghost suffix = all.skip(index as int);
            proof {
                assert(suffix[0] == all[index as int]);
                assert(suffix.drop_first() =~= all.skip(index as int + 1));
            }
            let line = self.lines[index].as_str();
            let t = trim(line);
            let token = if starts_with_char(t, '#') {
                tokenize_commented(line)
            } else {
                match tokenize_uncommented(line) {
                    Ok(tok) => tok,
                    Err(e) => {
                        proof {
                            assert(suffix[0] == line@);
                            assert(spec_tokenize(suffix) == Err::<Seq<LineV>, Seq<char>>(line@));
                        }
                        return Err(e);
                    },
                }
            };
            let ghost old_res = res.deep_view();
            res.push(token);
            index = index + 1;
            proof {
                assert(res.deep_view() =~= old_res.push(token.deep_view()));
                assert(old_res.push(token.deep_view()) =~= old_res + seq![token.deep_view()]);
                assert(tokenize_line(suffix[0]) == Some(token.deep_view()));
                if let Ok(ts) = spec_tokenize(all) {
                    let rest0 = spec_tokenize(suffix)->Ok_0;
                    let rest1 = spec_tokenize(all.skip(index as int))->Ok_0;
                    assert(rest0 == seq![token.deep_view()] + rest1);
                    assert(old_res + rest0 =~= res.deep_view() + rest1);
                }
            }
        }
        proof {
            assert(all.skip(index as int) =~= Seq::<Seq<char>>::empty());
            if let Ok(ts) = spec_tokenize(all) {
                assert(ts =~= res.deep_view());
            }
        }
        Ok(res)
    }
}

} // verus!
