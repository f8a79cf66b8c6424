//! The entry parser: groups the token sequence of one file into structural
//! entries, each with its comments, a production flag, a locked flag, a
//! header, and key/value options.

use vstd::prelude::*;

use crate::error::{AwsError, ErrV, ParsePhase};
use crate::line_lexer::{EntryLine, LineV};

verus! {

/// One parsed profile record of one file.
#[derive(Debug)]
pub struct Entry {
    /// Free-text comments collected before the header.
    pub comments: Vec<String>,
    /// Whether a `# production` marker precedes the entry.
    pub is_production: bool,
    /// Whether the entry's data lines are commented out.
    pub is_locked: bool,
    /// The header text between the brackets.
    pub header: String,
    /// The key/value options, keys unique, a later duplicate overwriting an
    /// earlier one in place.
    pub values: Vec<(String, String)>,
}

/// The mathematical image of an `Entry`.
#[verifier::ext_equal]
pub struct EntryV {
    pub comments: Seq<Seq<char>>,
    pub is_production: bool,
    pub is_locked: bool,
    pub header: Seq<char>,
    pub values: Seq<(Seq<char>, Seq<char>)>,
}

impl DeepView for Entry {
    type V = EntryV;

    open spec fn deep_view(&self) -> EntryV {
        EntryV {
            comments: self.comments.deep_view(),
            is_production: self.is_production,
            is_locked: self.is_locked,
            header: self.header@,
            values: self.values.deep_view(),
        }
    }
}

// ------------------------------------------------------------------
// The entry grammar, specified
// ------------------------------------------------------------------

/// Tokens with leading blank lines dropped.
pub open spec fn skip_empties(ts: Seq<LineV>) -> Seq<LineV>
    decreases ts.len(),
{
    if ts.len() > 0 && ts[0] is Empty {
        skip_empties(ts.drop_first())
    } else {
        ts
    }
}

/// Insertion into a key/value sequence: a present key's value is replaced
/// in place, a new key is appended.
pub open spec fn vals_insert(
    vs: Seq<(Seq<char>, Seq<char>)>,
    k: Seq<char>,
    v: Seq<char>,
) -> Seq<(Seq<char>, Seq<char>)>
    decreases vs.len(),
{
    if vs.len() == 0 {
        seq![(k, v)]
    } else if vs[0].0 == k {
        seq![(k, v)] + vs.drop_first()
    } else {
        seq![vs[0]] + vals_insert(vs.drop_first(), k, v)
    }
}

/// First value bound to `k`, if any.
pub open spec fn spec_lookup(vs: Seq<(Seq<char>, Seq<char>)>, k: Seq<char>) -> Option<Seq<char>>
    decreases vs.len(),
{
    if vs.len() == 0 {
        None
    } else if vs[0].0 == k {
        Some(vs[0].1)
    } else {
        spec_lookup(vs.drop_first(), k)
    }
}

/// Scan for an optional production marker: comments and blank lines are
/// consumed, a marker is consumed and sets the flag, any other token ends
/// the scan without being consumed.
pub open spec fn p_production(ts: Seq<LineV>) -> Result<(Seq<Seq<char>>, bool, Seq<LineV>), ErrV>
    decreases ts.len(),
{
    if ts.len() == 0 {
        Err(ErrV::UnexpectedEndOfInput(ParsePhase::ProductionFlag))
    } else {
        match ts[0] {
            LineV::Empty => p_production(ts.drop_first()),
            LineV::Comment(c) => match p_production(ts.drop_first()) {
                Ok((cs, b, rest)) => Ok((seq![c] + cs, b, rest)),
                Err(e) => Err(e),
            },
            LineV::ProductionMarker => Ok((Seq::empty(), true, ts.drop_first())),
            _ => Ok((Seq::empty(), false, ts)),
        }
    }
}

/// Peek past comments and blank lines at the first data token to decide
/// whether the entry is locked; a second production marker is a structural
/// error.
pub open spec fn p_locked(ts: Seq<LineV>) -> Result<(Seq<Seq<char>>, bool, Seq<LineV>), ErrV>
    decreases ts.len(),
{
    if ts.len() == 0 {
        Err(ErrV::UnexpectedEndOfInput(ParsePhase::LockFlag))
    } else {
        match ts[0] {
            LineV::Empty => p_locked(ts.drop_first()),
            LineV::Comment(c) => match p_locked(ts.drop_first()) {
                Ok((cs, b, rest)) => Ok((seq![c] + cs, b, rest)),
                Err(e) => Err(e),
            },
            LineV::ProductionMarker => Err(
                ErrV::StructuralError(ParsePhase::LockFlag, LineV::ProductionMarker),
            ),
            LineV::LockedHeader(_) | LineV::LockedKeyValue(_, _) => Ok(
                (Seq::empty(), true, ts),
            ),
            LineV::Header(_) | LineV::KeyValue(_, _) => Ok((Seq::empty(), false, ts)),
        }
    }
}

/// Consume the header line, whose locked-ness must agree with the entry's.
pub open spec fn p_header(ts: Seq<LineV>, locked: bool) -> Result<
    (Seq<Seq<char>>, Seq<char>, Seq<LineV>),
    ErrV,
>
    decreases ts.len(),
{
    if ts.len() == 0 {
        Err(ErrV::UnexpectedEndOfInput(ParsePhase::Header))
    } else {
        match ts[0] {
            LineV::Empty => p_header(ts.drop_first(), locked),
            LineV::Comment(c) => match p_header(ts.drop_first(), locked) {
                Ok((cs, h, rest)) => Ok((seq![c] + cs, h, rest)),
                Err(e) => Err(e),
            },
            LineV::Header(h) => if !locked {
                Ok((Seq::empty(), h, ts.drop_first()))
            } else {
                Err(ErrV::StructuralError(ParsePhase::Header, ts[0]))
            },
            LineV::LockedHeader(h) => if locked {
                Ok((Seq::empty(), h, ts.drop_first()))
            } else {
                Err(ErrV::StructuralError(ParsePhase::Header, ts[0]))
            },
            _ => Err(ErrV::StructuralError(ParsePhase::Header, ts[0])),
        }
    }
}

/// Consume value lines agreeing with the entry's locked-ness, skipping
/// blank lines; a comment, header or marker begins the next entry; a value
/// line of the opposite locked-ness is a structural error.
pub open spec fn p_values(
    ts: Seq<LineV>,
    locked: bool,
    acc: Seq<(Seq<char>, Seq<char>)>,
) -> Result<(Seq<(Seq<char>, Seq<char>)>, Seq<LineV>), ErrV>
    decreases ts.len(),
{
    if ts.len() == 0 {
        Ok((acc, ts))
    } else {
        match ts[0] {
            LineV::Empty => p_values(ts.drop_first(), locked, acc),
            LineV::KeyValue(k, v) => if !locked {
                p_values(ts.drop_first(), locked, vals_insert(acc, k, v))
            } else {
                Err(ErrV::StructuralError(ParsePhase::Values, ts[0]))
            },
            LineV::LockedKeyValue(k, v) => if locked {
                p_values(ts.drop_first(), locked, vals_insert(acc, k, v))
            } else {
                Err(ErrV::StructuralError(ParsePhase::Values, ts[0]))
            },
            _ => Ok((acc, ts)),
        }
    }
}

/// Parse one entry, or recognize the end of the token stream.
pub open spec fn spec_parse_one(ts: Seq<LineV>) -> Result<Option<(EntryV, Seq<LineV>)>, ErrV> {
    let ts0 = skip_empties(ts);
    if ts0.len() == 0 {
        Ok(None)
    } else {
        match p_production(ts0) {
            Err(e) => Err(e),
            Ok((c1, prod, ts1)) => match p_locked(ts1) {
                Err(e) => Err(e),
                Ok((c2, locked, ts2)) => match p_header(ts2, locked) {
                    Err(e) => Err(e),
                    Ok((c3, h, ts3)) => match p_values(ts3, locked, Seq::empty()) {
                        Err(e) => Err(e),
                        Ok((vals, ts4)) => Ok(
                            Some(
                                (
                                    EntryV {
                                        comments: c1 + c2 + c3,
                                        is_production: prod,
                                        is_locked: locked,
                                        header: h,
                                        values: vals,
                                    },
                                    ts4,
                                ),
                            ),
                        ),
                    },
                },
            },
        }
    }
}

pub proof fn lemma_skip_empties(ts: Seq<LineV>)
    ensures
        skip_empties(ts).len() <= ts.len(),
    decreases ts.len(),
{
    if ts.len() > 0 && ts[0] is Empty {
        lemma_skip_empties(ts.drop_first());
    }
}

/// The index characterization of `skip_empties`: dropping a prefix of
/// blank-line tokens.
pub proof fn lemma_skip_empties_at(ts: Seq<LineV>, k: int)
    requires
        0 <= k <= ts.len(),
        forall|u: int| 0 <= u < k ==> ts[u] is Empty,
        k < ts.len() ==> !(ts[k] is Empty),
    ensures
        skip_empties(ts) == ts.skip(k),
    decreases ts.len(),
{
    if ts.len() > 0 && ts[0] is Empty {
        assert(k > 0);
        assert forall|u: int| 0 <= u < k - 1 implies ts.drop_first()[u] is Empty by {
            assert(ts.drop_first()[u] == ts[u + 1]);
        }
        lemma_skip_empties_at(ts.drop_first(), k - 1);
        assert(ts.drop_first().skip(k - 1) =~= ts.skip(k));
    } else {
        assert(k == 0);
        assert(ts.skip(0) =~= ts);
    }
}

pub proof fn lemma_p_production_len(ts: Seq<LineV>)
    ensures
        p_production(ts) matches Ok((c, b, rest)) ==> rest.len() <= ts.len(),
    decreases ts.len(),
{
    if ts.len() > 0 {
        lemma_p_production_len(ts.drop_first());
    }
}

pub proof fn lemma_p_locked_len(ts: Seq<LineV>)
    ensures
        p_locked(ts) matches Ok((c, b, rest)) ==> rest.len() <= ts.len(),
    decreases ts.len(),
{
    if ts.len() > 0 {
        lemma_p_locked_len(ts.drop_first());
    }
}

pub proof fn lemma_p_header_len(ts: Seq<LineV>, locked: bool)
    ensures
        p_header(ts, locked) matches Ok((c, h, rest)) ==> rest.len() < ts.len(),
    decreases ts.len(),
{
    if ts.len() > 0 {
        lemma_p_header_len(ts.drop_first(), locked);
    }
}

pub proof fn lemma_p_values_len(ts: Seq<LineV>, locked: bool, acc: Seq<(Seq<char>, Seq<char>)>)
    ensures
        p_values(ts, locked, acc) matches Ok((vs, rest)) ==> rest.len() <= ts.len(),
    decreases ts.len(),
{
    if ts.len() > 0 {
        match ts[0] {
            LineV::Empty => lemma_p_values_len(ts.drop_first(), locked, acc),
            LineV::KeyValue(k, v) => lemma_p_values_len(
                ts.drop_first(),
                locked,
                vals_insert(acc, k, v),
            ),
            LineV::LockedKeyValue(k, v) => lemma_p_values_len(
                ts.drop_first(),
                locked,
                vals_insert(acc, k, v),
            ),
            _ => {},
        }
    }
}

/// A successfully parsed entry consumes at least one token.
pub proof fn lemma_parse_one_shrinks(ts: Seq<LineV>)
    ensures
        spec_parse_one(ts) matches Ok(Some((e, rest))) ==> rest.len() < ts.len(),
{
    lemma_skip_empties(ts);
    let ts0 = skip_empties(ts);
    if ts0.len() > 0 {
        lemma_p_production_len(ts0);
        if let Ok((c1, prod, ts1)) = p_production(ts0) {
            lemma_p_locked_len(ts1);
            if let Ok((c2, locked, ts2)) = p_locked(ts1) {
                lemma_p_header_len(ts2, locked);
                if let Ok((c3, h, ts3)) = p_header(ts2, locked) {
                    lemma_p_values_len(ts3, locked, Seq::empty());
                }
            }
        }
    }
}

/// Parse the whole token stream into entries.
pub open spec fn spec_parse(ts: Seq<LineV>) -> Result<Seq<EntryV>, ErrV>
    decreases ts.len(),
    via spec_parse_decreases
{
    match spec_parse_one(ts) {
        Err(e) => Err(e),
        Ok(None) => Ok(Seq::empty()),
        Ok(Some((e1, rest))) => match spec_parse(rest) {
            Err(e) => Err(e),
            Ok(es) => Ok(seq![e1] + es),
        },
    }
}

#[via_fn]
proof fn spec_parse_decreases(ts: Seq<LineV>) {
    lemma_parse_one_shrinks(ts);
}

// ------------------------------------------------------------------
// The entry grammar, executed
// ------------------------------------------------------------------

/// Replace the first binding of `k` in `vals`, or append one.
fn vals_put(vals: Vec<(String, String)>, k: String, v: String) -> (r: Vec<(String, String)>)
    ensures
        r.deep_view() == vals_insert(vals.deep_view(), k@, v@),
{
    let n = vals.len();
    let mut w: usize = 0;
    while w < n && !crate::text::str_eq(vals[w].0.as_str(), k.as_str())
        invariant
            0 <= w <= n,
            n == vals.len(),
            forall|u: int| 0 <= u < w ==> vals.deep_view()[u].0 != k@,
        decreases n - w,
    {
        w = w + 1;
    }
    if w < n {
        proof {
            lemma_vals_insert_at(vals.deep_view(), k@, v@, w as int);
        }
        let mut res: Vec<(String, String)> = Vec::new();
        let mut i: usize = 0;
        while i < n
            invariant
                0 <= i <= n,
                n == vals.len(),
                w < n,
                res.deep_view() =~= vals.deep_view().update(w as int, (k@, v@)).take(i as int),
            decreases n - i,
        {
            let ghost old_res = res.deep_view();
            if i == w {
                res.push((k.clone(), v.clone()));
            } else {
                let p = &vals[i];
                res.push((p.0.clone(), p.1.clone()));
            }
            proof {
                assert(res.deep_view() =~= old_res.push(res.deep_view().last()));
                assert(res.deep_view() =~= vals.deep_view().update(w as int, (k@, v@)).take(
                    i as int + 1,
                ));
            }
            i = i + 1;
        }
        proof {
            assert(vals.deep_view().update(w as int, (k@, v@)).take(n as int) =~= vals.deep_view()
                .update(w as int, (k@, v@)));
        }
        res
    } else {
        proof {
            lemma_vals_insert_absent(vals.deep_view(), k@, v@);
        }
        let mut res = vals;
        let ghost old_res = res.deep_view();
        res.push((k, v));
        proof {
            assert(res.deep_view() =~= old_res.push(res.deep_view().last()));
        }
        res
    }
}

/// `vals_insert` replaces in place at the first index holding the key.
proof fn lemma_vals_insert_at(vs: Seq<(Seq<char>, Seq<char>)>, k: Seq<char>, v: Seq<char>, w: int)
    requires
        0 <= w < vs.len(),
        vs[w].0 == k,
        forall|u: int| 0 <= u < w ==> vs[u].0 != k,
    ensures
        vals_insert(vs, k, v) == vs.update(w, (k, v)),
    decreases vs.len(),
{
    if w == 0 {
        assert(vals_insert(vs, k, v) =~= vs.update(0, (k, v)));
    } else {
        assert(vs[0].0 != k);
        assert forall|u: int| 0 <= u < w - 1 implies vs.drop_first()[u].0 != k by {
            assert(vs.drop_first()[u] == vs[u + 1]);
        }
        assert(vs.drop_first()[w - 1] == vs[w]);
        lemma_vals_insert_at(vs.drop_first(), k, v, w - 1);
        assert(vals_insert(vs, k, v) =~= vs.update(w, (k, v)));
    }
}

/// `vals_insert` appends when the key is absent.
pub proof fn lemma_vals_insert_absent(vs: Seq<(Seq<char>, Seq<char>)>, k: Seq<char>, v: Seq<char>)
    requires
        forall|u: int| 0 <= u < vs.len() ==> vs[u].0 != k,
    ensures
        vals_insert(vs, k, v) == vs.push((k, v)),
    decreases vs.len(),
{
    if vs.len() == 0 {
        assert(vals_insert(vs, k, v) =~= vs.push((k, v)));
    } else {
        assert forall|u: int| 0 <= u < vs.drop_first().len() implies vs.drop_first()[u].0 != k by {
            assert(vs.drop_first()[u] == vs[u + 1]);
        }
        lemma_vals_insert_absent(vs.drop_first(), k, v);
        assert(vals_insert(vs, k, v) =~= vs.push((k, v)));
    }
}

/// Scan for the production marker, as `p_production` describes.
fn phase_production(lines: &Vec<EntryLine>, i: usize) -> (r: Result<
    (Vec<String>, bool, usize),
    AwsError,
>)
    requires
        i <= lines.len(),
    ensures
        match r {
            Ok((cs, b, j)) => {
                &&& i <= j <= lines.len()
                &&& p_production(lines.deep_view().skip(i as int)) matches Ok((cs2, b2, rest))
                    && cs2 == cs.deep_view() && b2 == b && rest == lines.deep_view().skip(j as int)
            },
            Err(e) => p_production(lines.deep_view().skip(i as int)) == Err::<
                (Seq<Seq<char>>, bool, Seq<LineV>),
                ErrV,
            >(e.deep_view()),
        },
{
    let ghost all = lines.deep_view();
    let n = lines.len();
    let mut j = i;
    let mut comments: Vec<String> = Vec::new();
    proof {
        assert(comments.deep_view() =~= Seq::<Seq<char>>::empty());
    }
    while j < n
        invariant
            i <= j <= n,
            n == lines.len(),
            all == lines.deep_view(),
            match p_production(all.skip(j as int)) {
                Ok((cs, b, rest)) => p_production(all.skip(i as int)) matches Ok((cs0, b0, rest0))
                    && cs0 == comments.deep_view() + cs && b0 == b && rest0 == rest,
                Err(e) => p_production(all.skip(i as int)) == Err::<
                    (Seq<Seq<char>>, bool, Seq<LineV>),
                    ErrV,
                >(e),
            },
        decreases n - j,
    {
        let ghost suffix = all.skip(j as int);
        proof {
            assert(suffix[0] == all[j as int]);
            assert(suffix.drop_first() =~= all.skip(j as int + 1));
        }
        match &lines[j] {
            EntryLine::Empty => {
                j = j + 1;
            },
            EntryLine::Comment(c) => {
                let ghost old_comments = comments.deep_view();
                comments.push(c.clone());
                j = j + 1;
                proof {
                    assert(comments.deep_view() =~= old_comments.push(c@));
                    if let Ok((cs, b, rest)) = p_production(all.skip(j as int)) {
                        assert(p_production(suffix) == Ok::<_, ErrV>((seq![c@] + cs, b, rest)));
                        assert(comments.deep_view() + cs =~= old_comments + (seq![c@] + cs));
                    }
                }
            },
            EntryLine::ProductionMarker => {
                proof {
                    assert(p_production(suffix) == Ok::<_, ErrV>(
                        (Seq::<Seq<char>>::empty(), true, all.skip(j as int + 1)),
                    ));
                    assert(comments.deep_view() + Seq::<Seq<char>>::empty() =~= comments.deep_view());
                }
                return Ok((comments, true, j + 1));
            },
            _ => {
                proof {
                    assert(p_production(suffix) == Ok::<_, ErrV>(
                        (Seq::<Seq<char>>::empty(), false, suffix),
                    ));
                    assert(comments.deep_view() + Seq::<Seq<char>>::empty() =~= comments.deep_view());
                }
                return Ok((comments, false, j));
            },
        }
    }
    proof {
        assert(all.skip(j as int) =~= Seq::<LineV>::empty());
    }
    Err(AwsError::UnexpectedEndOfInput(ParsePhase::ProductionFlag))
}

/// Decide the entry's locked-ness, as `p_locked` describes.
fn phase_locked(lines: &Vec<EntryLine>, i: usize) -> (r: Result<(Vec<String>, bool, usize), AwsError>)
    requires
        i <= lines.len(),
    ensures
        match r {
            Ok((cs, b, j)) => {
                &&& i <= j <= lines.len()
                &&& p_locked(lines.deep_view().skip(i as int)) matches Ok((cs2, b2, rest)) && cs2
                    == cs.deep_view() && b2 == b && rest == lines.deep_view().skip(j as int)
            },
            Err(e) => p_locked(lines.deep_view().skip(i as int)) == Err::<
                (Seq<Seq<char>>, bool, Seq<LineV>),
                ErrV,
            >(e.deep_view()),
        },
{
    let ghost all = lines.deep_view();
    let n = lines.len();
    let mut j = i;
    let mut comments: Vec<String> = Vec::new();
    proof {
        assert(comments.deep_view() =~= Seq::<Seq<char>>::empty());
    }
    while j < n
        invariant
            i <= j <= n,
            n == lines.len(),
            all == lines.deep_view(),
            match p_locked(all.skip(j as int)) {
                Ok((cs, b, rest)) => p_locked(all.skip(i as int)) matches Ok((cs0, b0, rest0))
                    && cs0 == comments.deep_view() + cs && b0 == b && rest0 == rest,
                Err(e) => p_locked(all.skip(i as int)) == Err::<
                    (Seq<Seq<char>>, bool, Seq<LineV>),
                    ErrV,
                >(e),
            },
        decreases n - j,
    {
        let ghost suffix = all.skip(j as int);
        proof {
            assert(suffix[0] == all[j as int]);
            assert(suffix.drop_first() =~= all.skip(j as int + 1));
        }
        match &lines[j] {
            EntryLine::Empty => {
                j = j + 1;
            },
            EntryLine::Comment(c) => {
                let ghost old_comments = comments.deep_view();
                comments.push(c.clone());
                j = j + 1;
                proof {
                    assert(comments.deep_view() =~= old_comments.push(c@));
                    if let Ok((cs, b, rest)) = p_locked(all.skip(j as int)) {
                        assert(p_locked(suffix) == Ok::<_, ErrV>((seq![c@] + cs, b, rest)));
                        assert(comments.deep_view() + cs =~= old_comments + (seq![c@] + cs));
                    }
                }
            },
            EntryLine::ProductionMarker => {
                return Err(
                    AwsError::StructuralError(ParsePhase::LockFlag, EntryLine::ProductionMarker),
                );
            },
            EntryLine::LockedHeader(_) | EntryLine::LockedKeyValue(_, _) => {
                proof {
                    assert(comments.deep_view() + Seq::<Seq<char>>::empty() =~= comments.deep_view());
                }
                return Ok((comments, true, j));
            },
            EntryLine::Header(_) | EntryLine::KeyValue(_, _) => {
                proof {
                    assert(comments.deep_view() + Seq::<Seq<char>>::empty() =~= comments.deep_view());
                }
                return Ok((comments, false, j));
            },
        }
    }
    proof {
        assert(all.skip(j as int) =~= Seq::<LineV>::empty());
    }
    Err(AwsError::UnexpectedEndOfInput(ParsePhase::LockFlag))
}

/// Consume the header line, as `p_header` describes.
fn phase_header(lines: &Vec<EntryLine>, i: usize, locked: bool) -> (r: Result<
    (Vec<String>, String, usize),
    AwsError,
>)
    requires
        i <= lines.len(),
    ensures
        match r {
            Ok((cs, h, j)) => {
                &&& i <= j <= lines.len()
                &&& p_header(lines.deep_view().skip(i as int), locked) matches Ok((cs2, h2, rest))
                    && cs2 == cs.deep_view() && h2 == h@ && rest == lines.deep_view().skip(j as int)
            },
            Err(e) => p_header(lines.deep_view().skip(i as int), locked) == Err::<
                (Seq<Seq<char>>, Seq<char>, Seq<LineV>),
                ErrV,
            >(e.deep_view()),
        },
{
    let ghost all = lines.deep_view();
    let n = lines.len();
    let mut j = i;
    let mut comments: Vec<String> = Vec::new();
    proof {
        assert(comments.deep_view() =~= Seq::<Seq<char>>::empty());
    }
    while j < n
        invariant
            i <= j <= n,
            n == lines.len(),
            all == lines.deep_view(),
            match p_header(all.skip(j as int), locked) {
                Ok((cs, h, rest)) => p_header(all.skip(i as int), locked) matches Ok(
                    (cs0, h0, rest0),
                ) && cs0 == comments.deep_view() + cs && h0 == h && rest0 == rest,
                Err(e) => p_header(all.skip(i as int), locked) == Err::<
                    (Seq<Seq<char>>, Seq<char>, Seq<LineV>),
                    ErrV,
                >(e),
            },
        decreases n - j,
    {
        let ghost suffix = all.skip(j as int);
        proof {
            assert(suffix[0] == all[j as int]);
            assert(suffix.drop_first() =~= all.skip(j as int + 1));
        }
        match &lines[j] {
            EntryLine::Empty => {
                j = j + 1;
            },
            EntryLine::Comment(c) => {
                let ghost old_comments = comments.deep_view();
                comments.push(c.clone());
                j = j + 1;
                proof {
                    assert(comments.deep_view() =~= old_comments.push(c@));
                    if let Ok((cs, h, rest)) = p_header(all.skip(j as int), locked) {
                        assert(p_header(suffix, locked) == Ok::<_, ErrV>((seq![c@] + cs, h, rest)));
                        assert(comments.deep_view() + cs =~= old_comments + (seq![c@] + cs));
                    }
                }
            },
            EntryLine::Header(h) => {
                if !locked {
                    proof {
                        assert(comments.deep_view() + Seq::<Seq<char>>::empty()
                            =~= comments.deep_view());
                    }
                    return Ok((comments, h.clone(), j + 1));
                } else {
                    return Err(AwsError::StructuralError(ParsePhase::Header, lines[j].clone()));
                }
            },
            EntryLine::LockedHeader(h) => {
                if locked {
                    proof {
                        assert(comments.deep_view() + Seq::<Seq<char>>::empty()
                            =~= comments.deep_view());
                    }
                    return Ok((comments, h.clone(), j + 1));
                } else {
                    return Err(AwsError::StructuralError(ParsePhase::Header, lines[j].clone()));
                }
            },
            _ => {
                return Err(AwsError::StructuralError(ParsePhase::Header, lines[j].clone()));
            },
        }
    }
    proof {
        assert(all.skip(j as int) =~= Seq::<LineV>::empty());
    }
    Err(AwsError::UnexpectedEndOfInput(ParsePhase::Header))
}

/// Consume the value lines, as `p_values` describes.
fn phase_values(lines: &Vec<EntryLine>, i: usize, locked: bool) -> (r: Result<
    (Vec<(String, String)>, usize),
    AwsError,
>)
    requires
        i <= lines.len(),
    ensures
        match r {
            Ok((vs, j)) => {
                &&& i <= j <= lines.len()
                &&& p_values(lines.deep_view().skip(i as int), locked, Seq::empty()) matches Ok(
                    (vs2, rest),
                ) && vs2 == vs.deep_view() && rest == lines.deep_view().skip(j as int)
            },
            Err(e) => p_values(lines.deep_view().skip(i as int), locked, Seq::empty()) == Err::<
                (Seq<(Seq<char>, Seq<char>)>, Seq<LineV>),
                ErrV,
            >(e.deep_view()),
        },
{
    let ghost all = lines.deep_view();
    let n = lines.len();
    let mut j = i;
    let mut vals: Vec<(String, String)> = Vec::new();
    proof {
        assert(vals.deep_view() =~= Seq::<(Seq<char>, Seq<char>)>::empty());
    }
    while j < n
        invariant
            i <= j <= n,
            n == lines.len(),
            all == lines.deep_view(),
            match p_values(all.skip(j as int), locked, vals.deep_view()) {
                Ok((vs, rest)) => p_values(all.skip(i as int), locked, Seq::empty()) matches Ok(
                    (vs0, rest0),
                ) && vs0 == vs && rest0 == rest,
                Err(e) => p_values(all.skip(i as int), locked, Seq::empty()) == Err::<
                    (Seq<(Seq<char>, Seq<char>)>, Seq<LineV>),
                    ErrV,
                >(e),
            },
        decreases n - j,
    {
        let ghost suffix = all.skip(j as int);
        proof {
            assert(suffix[0] == all[j as int]);
            assert(suffix.drop_first() =~= all.skip(j as int + 1));
        }
        match &lines[j] {
            EntryLine::Empty => {
                j = j + 1;
            },
            EntryLine::KeyValue(k, v) => {
                if locked {
                    return Err(AwsError::StructuralError(ParsePhase::Values, lines[j].clone()));
                }
                vals = vals_put(vals, k.clone(), v.clone());
                j = j + 1;
            },
            EntryLine::LockedKeyValue(k, v) => {
                if !locked {
                    return Err(AwsError::StructuralError(ParsePhase::Values, lines[j].clone()));
                }
                vals = vals_put(vals, k.clone(), v.clone());
                j = j + 1;
            },
            _ => {
                return Ok((vals, j));
            },
        }
    }
    proof {
        assert(all.skip(j as int) =~= Seq::<LineV>::empty());
    }
    Ok((vals, j))
}

/// Is the token a blank line?
fn is_empty_line(l: &EntryLine) -> (r: bool)
    ensures
        r == (l.deep_view() is Empty),
{
    matches!(l, EntryLine::Empty)
}

/// Parse one entry beginning at token `i`, or recognize the end.
fn parse_one_at(lines: &Vec<EntryLine>, i: usize) -> (r: Result<(Option<Entry>, usize), AwsError>)
    requires
        i <= lines.len(),
    ensures
        match r {
            Ok((Some(entry), j)) => {
                &&& i < j <= lines.len()
                &&& spec_parse_one(lines.deep_view().skip(i as int)) matches Ok(Some((ev, rest)))
                    && ev == entry.deep_view() && rest == lines.deep_view().skip(j as int)
            },
            Ok((None, j)) => spec_parse_one(lines.deep_view().skip(i as int)) == Ok::<
                Option<(EntryV, Seq<LineV>)>,
                ErrV,
            >(None) && j == lines.len(),
            Err(e) => spec_parse_one(lines.deep_view().skip(i as int)) == Err::<
                Option<(EntryV, Seq<LineV>)>,
                ErrV,
            >(e.deep_view()),
        },
{
    let ghost all = lines.deep_view();
    let n = lines.len();
    // skip leading blank lines
    let mut j = i;
    while j < n && is_empty_line(&lines[j])
        invariant
            i <= j <= n,
            n == lines.len(),
            forall|u: int| i <= u < j ==> lines.deep_view()[u] is Empty,
        decreases n - j,
    {
        j = j + 1;
    }
    proof {
        let pre = all.skip(i as int);
        assert forall|u: int| 0 <= u < j - i implies pre[u] is Empty by {
            assert(pre[u] == all[i + u]);
        }
        if j < n {
            assert(pre[j - i] == all[j as int]);
        }
        lemma_skip_empties_at(pre, j - i);
        assert(pre.skip(j - i) =~= all.skip(j as int));
    }
    if j == n {
        proof {
            assert(all.skip(j as int) =~= Seq::<LineV>::empty());
        }
        return Ok((None, j));
    }
    let (c1, prod, j1) = match phase_production(lines, j) {
        Ok(x) => x,
        Err(e) => {
            return Err(e);
        },
    };
    let (c2, locked, j2) = match phase_locked(lines, j1) {
        Ok(x) => x,
        Err(e) => {
            return Err(e);
        },
    };
    let (c3, header, j3) = match phase_header(lines, j2, locked) {
        Ok(x) => x,
        Err(e) => {
            return Err(e);
        },
    };
    let (vals, j4) = match phase_values(lines, j3, locked) {
        Ok(x) => x,
        Err(e) => {
            return Err(e);
        },
    };
    let mut comments = c1;
    let mut c2m = c2;
    let mut c3m = c3;
    let ghost c1v = comments.deep_view();
    let ghost c2v = c2m.deep_view();
    let ghost c3v = c3m.deep_view();
    comments.append(&mut c2m);
    comments.append(&mut c3m);
    proof {
        assert(comments.deep_view() =~= c1v + c2v + c3v);
    }
    let entry = Entry {
        comments,
        is_production: prod,
        is_locked: locked,
        header,
        values: vals,
    };
    proof {
        lemma_parse_one_shrinks(all.skip(i as int));
        if let Ok(Some((ev, rest))) = spec_parse_one(all.skip(i as int)) {
            assert(ev =~= entry.deep_view());
            assert(rest.len() == n - j4);
        }
    }
    Ok((Some(entry), j4))
}

/// Parse every entry from token `i` on.
fn parse_all_at(lines: &Vec<EntryLine>, i: usize) -> (r: Result<(Vec<Entry>, usize), AwsError>)
    requires
        i <= lines.len(),
    ensures
        match r {
            Ok((es, j)) => i <= j <= lines.len() && spec_parse(lines.deep_view().skip(i as int))
                == Ok::<Seq<EntryV>, ErrV>(es.deep_view()),
            Err(e) => spec_parse(lines.deep_view().skip(i as int)) == Err::<Seq<EntryV>, ErrV>(
                e.deep_view(),
            ),
        },
{
    let ghost all = lines.deep_view();
    let n = lines.len();
    let mut j = i;
    let mut entries: Vec<Entry> = Vec::new();
    proof {
        assert(entries.deep_view() =~= Seq::<EntryV>::empty());
    }
    loop
        invariant
            i <= j <= n,
            n == lines.len(),
            all == lines.deep_view(),
            match spec_parse(all.skip(i as int)) {
                Ok(es) => spec_parse(all.skip(j as int)) matches Ok(rest) && es
                    == entries.deep_view() + rest,
                Err(e) => spec_parse(all.skip(j as int)) == Err::<Seq<EntryV>, ErrV>(e),
            },
        decreases n - j,
    {
        let ghost suffix = all.skip(j as int);
        match parse_one_at(lines, j) {
            Err(e) => {
                return Err(e);
            },
            Ok((None, j2)) => {
                proof {
                    assert(spec_parse(suffix) == Ok::<Seq<EntryV>, ErrV>(Seq::empty()));
                    if let Ok(es) = spec_parse(all.skip(i as int)) {
                        assert(es =~= entries.deep_view());
                    }
                }
                return Ok((entries, j2));
            },
            Ok((Some(entry), j2)) => {
                let ghost old_entries = entries.deep_view();
                entries.push(entry);
                proof {
                    assert(entries.deep_view() =~= old_entries.push(entries.deep_view().last()));
                    if let Ok(es) = spec_parse(all.skip(i as int)) {
                        let ev = spec_parse_one(suffix)->Ok_0->Some_0.0;
                        if let Ok(rest1) = spec_parse(all.skip(j2 as int)) {
                            assert(spec_parse(suffix) == Ok::<Seq<EntryV>, ErrV>(seq![ev] + rest1));
                            assert(old_entries + (seq![ev] + rest1) =~= entries.deep_view()
                                + rest1);
                        }
                    }
                }
                j = j2;
            },
        }
    }
}

// ------------------------------------------------------------------
// The parser
// ------------------------------------------------------------------

/// Cursor-based parser over the token sequence of one file.
#[derive(Debug)]
pub struct EntryLineParser {
    lines: Vec<EntryLine>,
    index: usize,
}

impl EntryLineParser {
    /// The tokens the parser was built over.
    pub closed spec fn tokens(&self) -> Seq<LineV> {
        self.lines.deep_view()
    }

    /// How many tokens have been consumed.
    pub closed spec fn idx(&self) -> int {
        self.index as int
    }

    pub closed spec fn wf(&self) -> bool {
        self.index <= self.lines.len()
    }

    pub fn new(lines: Vec<EntryLine>) -> (r: Self)
        ensures
            r.tokens() == lines.deep_view(),
            r.idx() == 0,
            r.wf(),
    {
        EntryLineParser { lines, index: 0 }
    }

    /// Parse every remaining entry, or fail with the grammar's error.
    pub fn parse(&mut self) -> (r: Result<Vec<Entry>, AwsError>)
        requires
            old(self).wf(),
        ensures
            final(self).wf(),
            final(self).tokens() == old(self).tokens(),
            match r {
                Ok(es) => spec_parse(old(self).tokens().skip(old(self).idx())) == Ok::<
                    Seq<EntryV>,
                    ErrV,
                >(es.deep_view()),
                Err(e) => spec_parse(old(self).tokens().skip(old(self).idx())) == Err::<
                    Seq<EntryV>,
                    ErrV,
                >(e.deep_view()),
            },
    {
        match parse_all_at(&self.lines, self.index) {
            Err(e) => Err(e),
            Ok((es, j)) => {
                self.index = j;
                Ok(es)
            },
        }
    }

    /// Parse one entry, advancing past it, or recognize the end.
    pub fn parse_one(&mut self) -> (r: Result<Option<Entry>, AwsError>)
        requires
            old(self).wf(),
        ensures
            final(self).wf(),
            final(self).tokens() == old(self).tokens(),
            match r {
                Ok(Some(entry)) => {
                    &&& spec_parse_one(old(self).tokens().skip(old(self).idx())) matches Ok(
                    Some((ev, rest))) && ev == entry.deep_view() && rest == final(self).tokens().skip(
                        final(self).idx(),
                    )
                },
                Ok(None) => spec_parse_one(old(self).tokens().skip(old(self).idx())) == Ok::<
                    Option<(EntryV, Seq<LineV>)>,
                    ErrV,
                >(None),
                Err(e) => spec_parse_one(old(self).tokens().skip(old(self).idx())) == Err::<
                    Option<(EntryV, Seq<LineV>)>,
                    ErrV,
                >(e.deep_view()),
            },
    {
        match parse_one_at(&self.lines, self.index) {
            Err(e) => Err(e),
            Ok((opt, j)) => {
                self.index = j;
                Ok(opt)
            },
        }
    }
}

/// First value bound to `key`, cloned out of `vals`.
pub fn lookup(vals: &Vec<(String, String)>, key: &str) -> (r: Option<String>)
    ensures
        r.deep_view() == spec_lookup(vals.deep_view(), key@),
{
    let n = vals.len();
    let mut i: usize = 0;
    proof {
        assert(vals.deep_view().skip(0) =~= vals.deep_view());
    }
    while i < n
        invariant
            0 <= i <= n,
            n == vals.len(),
            spec_lookup(vals.deep_view(), key@) == spec_lookup(
                vals.deep_view().skip(i as int),
                key@,
            ),
            forall|u: int| 0 <= u < i ==> vals.deep_view()[u].0 != key@,
        decreases n - i,
    {
        let ghost suffix = vals.deep_view().skip(i as int);
        proof {
            assert(suffix[0] == vals.deep_view()[i as int]);
            assert(suffix.drop_first() =~= vals.deep_view().skip(i as int + 1));
        }
        let p = &vals[i];
        if crate::text::str_eq(p.0.as_str(), key) {
            return Some(p.1.clone());
        }
        i = i + 1;
    }
    proof {
        assert(vals.deep_view().skip(i as int) =~= Seq::<(Seq<char>, Seq<char>)>::empty());
    }
    None
}

} // verus!
