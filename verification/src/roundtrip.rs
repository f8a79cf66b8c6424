//! The round-trip law of the store: parsing the serializer's output gives
//! the profile sequence back. The proof walks the pipeline backwards — the
//! written text splits into the written lines, each line tokenizes to the
//! intended token, the tokens parse to the intended entries, the entries
//! merge to the original profiles.

use vstd::prelude::*;

use crate::aws_profile::{
    conf_entry_lines, conf_header_line, conf_of_entry, conf_side, cred_entry_lines,
    cred_header_line, cred_of_entry, cred_side, comment_lines, confs_of_entries,
    creds_of_entries, empty_conf, lock_prefix, name_text, opt_value_lines, production_lines,
    value_line, ConfV, CredV, MetaV, NameV, ProfV,
};
use crate::line_parser::spec_lookup;
use crate::line_lexer::{
    classify_commented, classify_uncommented, commented_inner, is_commented, spec_tokenize,
    tokenize_line, LineV,
};
use crate::line_parser::{
    lemma_vals_insert_absent, p_header, p_locked, p_production, p_values, skip_empties,
    spec_parse, spec_parse_one, vals_insert, EntryV,
};
use crate::text::{
    end_idx, find_char, is_space, lemma_commented_line, lemma_find_char, lemma_find_char_is,
    lemma_end_idx, lemma_end_idx_is, lemma_start_idx, lemma_start_idx_is, lemma_trim_drop_leading_space,
    lemma_trim_id, lemma_trim_no_edge_space, lemma_trim_pad_right, lemma_trim_stable,
    spec_trim, start_idx,
};

verus! {

// ------------------------------------------------------------------
// Facts about the fixed key and marker texts
// ------------------------------------------------------------------

/// A key as the serializer writes one: a non-blank word with clean edges
/// that starts no other line shape and holds no separator.
pub open spec fn key_ok(k: Seq<char>) -> bool {
    &&& k.len() > 0
    &&& !is_space(k[0])
    &&& !is_space(k.last())
    &&& k[0] != '#'
    &&& k[0] != '['
    &&& !k.contains('=')
    &&& !k.contains('\n')
}

proof fn lemma_no_char_in(s: Seq<char>, c: char)
    requires
        forall|i: int| 0 <= i < s.len() ==> s[i] != c,
    ensures
        !s.contains(c),
{
    if s.contains(c) {
        let w = choose|w: int| 0 <= w < s.len() && s[w] == c;
    }
}

/// The fixed texts the serializer writes, spelled out.
proof fn lemma_literals()
    ensures
        "production"@ =~= seq!['p', 'r', 'o', 'd', 'u', 'c', 't', 'i', 'o', 'n'],
        "# "@ =~= seq!['#', ' '],
        " = "@ =~= seq![' ', '=', ' '],
        "["@ =~= seq!['['],
        "]"@ =~= seq![']'],
        "# production"@ =~= "# "@ + "production"@,
        "default"@ =~= seq!['d', 'e', 'f', 'a', 'u', 'l', 't'],
        "profile"@ =~= seq!['p', 'r', 'o', 'f', 'i', 'l', 'e'],
        "profile "@ =~= "profile"@ + seq![' '],
        "[default]"@ =~= "["@ + "default"@ + "]"@,
        "[profile "@ =~= "["@ + "profile "@,
        "region"@ =~= seq!['r', 'e', 'g', 'i', 'o', 'n'],
        "output"@ =~= seq!['o', 'u', 't', 'p', 'u', 't'],
{
    reveal_strlit("[profile ");
    reveal_strlit("production");
    reveal_strlit("# ");
    reveal_strlit(" = ");
    reveal_strlit("[");
    reveal_strlit("]");
    reveal_strlit("# production");
    reveal_strlit("default");
    reveal_strlit("profile");
    reveal_strlit("profile ");
    reveal_strlit("[default]");
    reveal_strlit("region");
    reveal_strlit("output");
}

proof fn lemma_cred_keys()
    ensures
        key_ok("aws_access_key_id"@),
        key_ok("aws_secret_access_key"@),
        key_ok("aws_session_token"@),
        key_ok("aws_session_expiration"@),
        key_ok("aws_security_token"@),
        key_ok("region"@),
        key_ok("output"@),
        "aws_access_key_id"@ != "aws_secret_access_key"@,
        "aws_access_key_id"@ != "aws_session_token"@,
        "aws_access_key_id"@ != "aws_session_expiration"@,
        "aws_access_key_id"@ != "aws_security_token"@,
        "aws_access_key_id"@ != "region"@,
        "aws_secret_access_key"@ != "aws_session_token"@,
        "aws_secret_access_key"@ != "aws_session_expiration"@,
        "aws_secret_access_key"@ != "aws_security_token"@,
        "aws_secret_access_key"@ != "region"@,
        "aws_session_token"@ != "aws_session_expiration"@,
        "aws_session_token"@ != "aws_security_token"@,
        "aws_session_token"@ != "region"@,
        "aws_session_expiration"@ != "aws_security_token"@,
        "aws_session_expiration"@ != "region"@,
        "aws_security_token"@ != "region"@,
        "region"@ != "output"@,
        !"production"@.contains('='),
{
    reveal_strlit("aws_access_key_id");
    reveal_strlit("aws_secret_access_key");
    reveal_strlit("aws_session_token");
    reveal_strlit("aws_session_expiration");
    reveal_strlit("aws_security_token");
    reveal_strlit("region");
    reveal_strlit("output");
    reveal_strlit("production");
    assert(!"aws_access_key_id"@.contains('=')) by {
        lemma_no_char_in("aws_access_key_id"@, '=');
    }
    assert(!"aws_access_key_id"@.contains('\n')) by {
        lemma_no_char_in("aws_access_key_id"@, '\n');
    }
    assert(!"aws_secret_access_key"@.contains('=')) by {
        lemma_no_char_in("aws_secret_access_key"@, '=');
    }
    assert(!"aws_secret_access_key"@.contains('\n')) by {
        lemma_no_char_in("aws_secret_access_key"@, '\n');
    }
    assert(!"aws_session_token"@.contains('=')) by {
        lemma_no_char_in("aws_session_token"@, '=');
    }
    assert(!"aws_session_token"@.contains('\n')) by {
        lemma_no_char_in("aws_session_token"@, '\n');
    }
    assert(!"aws_session_expiration"@.contains('=')) by {
        lemma_no_char_in("aws_session_expiration"@, '=');
    }
    assert(!"aws_session_expiration"@.contains('\n')) by {
        lemma_no_char_in("aws_session_expiration"@, '\n');
    }
    assert(!"aws_security_token"@.contains('=')) by {
        lemma_no_char_in("aws_security_token"@, '=');
    }
    assert(!"aws_security_token"@.contains('\n')) by {
        lemma_no_char_in("aws_security_token"@, '\n');
    }
    assert(!"region"@.contains('=')) by {
        lemma_no_char_in("region"@, '=');
    }
    assert(!"region"@.contains('\n')) by {
        lemma_no_char_in("region"@, '\n');
    }
    assert(!"output"@.contains('=')) by {
        lemma_no_char_in("output"@, '=');
    }
    assert(!"output"@.contains('\n')) by {
        lemma_no_char_in("output"@, '\n');
    }
    assert(!"production"@.contains('=')) by {
        lemma_no_char_in("production"@, '=');
    }
    assert("region"@ != "output"@) by {
        assert("region"@[0] == 'r');
        assert("output"@[0] == 'o');
    }
    assert("aws_access_key_id"@.len() == 17);
    assert("aws_secret_access_key"@.len() == 21);
    assert("aws_session_token"@.len() == 17);
    assert("aws_session_expiration"@.len() == 22);
    assert("aws_security_token"@.len() == 18);
    assert("region"@.len() == 6);
    assert("output"@.len() == 6);
    assert("aws_access_key_id"@ != "aws_session_token"@) by {
        assert("aws_access_key_id"@[4] == 'a');
        assert("aws_session_token"@[4] == 's');
    }
}

// ------------------------------------------------------------------
// One written line tokenizes to the intended token
// ------------------------------------------------------------------

/// The blank separator line.
proof fn lemma_classify_blank()
    ensures
        tokenize_line(Seq::<char>::empty()) == Some(LineV::Empty),
{
    let l = Seq::<char>::empty();
    lemma_trim_id(l);
    assert(!l.contains('=')) by {
        lemma_no_char_in(l, '=');
    }
}

/// A written comment line: `# ` and a trimmed text matching no other
/// commented shape.
proof fn lemma_classify_comment(c: Seq<char>)
    requires
        c == spec_trim(c),
        c != "production"@,
        !(c.len() > 0 && c[0] == '[' && c.last() == ']'),
        !c.contains('='),
    ensures
        tokenize_line("# "@ + c) == Some(LineV::Comment(c)),
{
    lemma_trim_no_edge_space(c);
    lemma_commented_line(c);
    assert(commented_inner("# "@ + c) == spec_trim(c));
}

/// The production marker line.
proof fn lemma_classify_marker()
    ensures
        tokenize_line("# production"@) == Some(LineV::ProductionMarker),
{
    lemma_literals();
    assert(!is_space('p'));
    lemma_commented_line("production"@);
    lemma_trim_id("production"@);
    assert("# production"@ == "# "@ + "production"@);
    assert(commented_inner("# production"@) == "production"@);
}

/// A written header line, active form: brackets around the header text.
proof fn lemma_classify_header(h: Seq<char>)
    ensures
        tokenize_line("["@ + h + "]"@) == Some(LineV::Header(h)),
{
    lemma_literals();
    let line = "["@ + h + "]"@;
    assert(line[0] == '[');
    assert(line.last() == ']');
    assert(!is_space('[') && !is_space(']'));
    lemma_trim_id(line);
    assert(!is_commented(line));
    assert(line.subrange(1, line.len() - 1) =~= h);
}

/// A written header line, locked form: the comment prefix, then brackets
/// around the header text.
proof fn lemma_classify_locked_header(h: Seq<char>)
    ensures
        tokenize_line("# "@ + ("["@ + h + "]"@)) == Some(LineV::LockedHeader(h)),
{
    lemma_literals();
    let rest = "["@ + h + "]"@;
    assert(rest[0] == '[');
    assert(rest.last() == ']');
    assert(!is_space('[') && !is_space(']'));
    lemma_commented_line(rest);
    lemma_trim_id(rest);
    let inner = commented_inner("# "@ + rest);
    assert(inner == rest);
    assert(inner != "production"@) by {
        if inner == "production"@ {
            assert(inner[0] == 'p');
        }
    }
    assert(inner.subrange(1, inner.len() - 1) =~= h);
}

/// A written `key = value` line, active form.
proof fn lemma_classify_value(k: Seq<char>, v: Seq<char>)
    requires
        key_ok(k),
        v == spec_trim(v),
    ensures
        tokenize_line(k + " = "@ + v) == Some(LineV::KeyValue(k, v)),
{
    lemma_literals();
    let line = k + " = "@ + v;
    let kl = k.len() as int;
    assert(line[0] == k[0]);
    assert(line[kl] == ' ');
    assert(line[kl + 1] == '=');
    assert(line[kl + 2] == ' ');
    // not a commented line
    lemma_start_idx_is(line, 0);
    lemma_end_idx(line);
    assert(end_idx(line) > 0) by {
        if end_idx(line) == 0 {
            assert(is_space(line[kl + 1]));
        }
    }
    assert(spec_trim(line).len() > 0 && spec_trim(line)[0] == line[0]);
    assert(!is_commented(line));
    // not a header line
    assert(!(line.len() > 0 && line[0] == '[' && line.last() == ']'));
    // a key/value line, split at the first separator
    assert(line.contains('=')) by {
        assert(line[kl + 1] == '=');
    }
    assert forall|j: int| 0 <= j < kl + 1 implies line[j] != '=' by {
        if j < kl {
            assert(line[j] == k[j]);
            if k[j] == '=' {
                assert(k.contains('='));
            }
        }
    }
    lemma_find_char_is(line, '=', kl + 1);
    assert(line.take(kl + 1) =~= k + seq![' ']);
    lemma_trim_pad_right(k);
    assert(line.skip(kl + 2) =~= seq![' '] + v);
    lemma_trim_drop_leading_space(v);
    lemma_trim_stable(v);
    assert(spec_trim(line.skip(kl + 2)) == v);
}

/// A written `key = value` line, locked form.
proof fn lemma_classify_locked_value(k: Seq<char>, v: Seq<char>)
    requires
        key_ok(k),
        v == spec_trim(v),
    ensures
        tokenize_line("# "@ + (k + " = "@ + v)) == Some(LineV::LockedKeyValue(k, v)),
{
    lemma_literals();
    let rest = k + " = "@ + v;
    let kl = k.len() as int;
    assert(rest[0] == k[0]);
    assert(rest[kl] == ' ');
    assert(rest[kl + 1] == '=');
    assert(rest[kl + 2] == ' ');
    lemma_commented_line(rest);
    let inner = commented_inner("# "@ + rest);
    assert(inner == spec_trim(rest));
    // the trim of the rest keeps everything up to the separator
    lemma_start_idx_is(rest, 0);
    lemma_end_idx(rest);
    let e = end_idx(rest);
    assert(e > kl + 1) by {
        if e <= kl + 1 {
            assert(is_space(rest[kl + 1]));
        }
    }
    assert(inner == rest.subrange(0, e));
    assert(inner.len() == e);
    assert(forall|j: int| 0 <= j < e ==> inner[j] == rest[j]);
    assert(inner[0] == k[0]);
    assert(inner[kl + 1] == '=');
    assert(inner.contains('=')) by {
        assert(inner[kl + 1] == '=');
    }
    lemma_cred_keys();
    assert(inner != "production"@) by {
        if inner == "production"@ {
            assert("production"@.contains('='));
        }
    }
    assert(!(inner.len() > 0 && inner[0] == '[' && inner.last() == ']'));
    assert forall|j: int| 0 <= j < kl + 1 implies inner[j] != '=' by {
        if j < kl {
            assert(inner[j] == k[j]);
            if k[j] == '=' {
                assert(k.contains('='));
            }
        }
    }
    lemma_find_char_is(inner, '=', kl + 1);
    assert(inner.take(kl + 1) =~= k + seq![' ']);
    lemma_trim_pad_right(k);
    // the value part: everything after the separator, trimmed
    lemma_trim_no_edge_space(v);
    if v.len() == 0 {
        lemma_end_idx_is(rest, kl + 2);
        assert(inner.skip(kl + 2) =~= Seq::<char>::empty());
        lemma_trim_id(Seq::<char>::empty());
        assert(spec_trim(inner.skip(kl + 2)) == v);
    } else {
        assert(rest.last() == v.last());
        lemma_end_idx_is(rest, rest.len() as int);
        assert(inner =~= rest);
        assert(inner.skip(kl + 2) =~= seq![' '] + v);
        lemma_trim_drop_leading_space(v);
        lemma_trim_stable(v);
        assert(spec_trim(inner.skip(kl + 2)) == v);
    }
}

// ------------------------------------------------------------------
// Well-formedness of parse-producible data
// ------------------------------------------------------------------

/// A comment the parser can produce: trimmed, matching no other commented
/// line shape, and free of newlines.
pub open spec fn wf_comment(c: Seq<char>) -> bool {
    &&& c == spec_trim(c)
    &&& c != "production"@
    &&& !(c.len() > 0 && c[0] == '[' && c.last() == ']')
    &&& !c.contains('=')
    &&& !c.contains('\n')
}

/// A value the parser can produce: trimmed and free of newlines.
pub open spec fn wf_value(v: Seq<char>) -> bool {
    v == spec_trim(v) && !v.contains('\n')
}

pub open spec fn wf_opt(v: Option<Seq<char>>) -> bool {
    v matches Some(x) ==> wf_value(x)
}

/// A profile name the parser can produce: a named one never spells
/// `default` and holds no newline.
pub open spec fn wf_name(n: NameV) -> bool {
    n matches NameV::Named(s) ==> (s != "default"@ && !s.contains('\n'))
}

pub open spec fn wf_comments(cs: Seq<Seq<char>>) -> bool {
    forall|i: int| 0 <= i < cs.len() ==> wf_comment(#[trigger] cs[i])
}

pub open spec fn wf_conf(c: MetaV<ConfV>) -> bool {
    &&& wf_name(c.name)
    &&& wf_comments(c.data.comments)
    &&& wf_opt(c.data.region)
    &&& wf_opt(c.data.output)
}

pub open spec fn wf_cred(c: MetaV<CredV>) -> bool {
    &&& wf_name(c.name)
    &&& wf_comments(c.data.comments)
    &&& wf_value(c.data.aws_access_key_id)
    &&& wf_value(c.data.aws_secret_access_key)
    &&& wf_opt(c.data.aws_session_token)
    &&& wf_opt(c.data.aws_session_expiration)
    &&& wf_opt(c.data.aws_security_token)
    &&& wf_opt(c.data.region)
}

pub open spec fn wf_profile(p: MetaV<ProfV>) -> bool {
    wf_conf(crate::aws_profile::conf_side(p)) && wf_cred(crate::aws_profile::cred_side(p))
}

// ------------------------------------------------------------------
// The intended tokens of a written entry
// ------------------------------------------------------------------

pub open spec fn comment_tokens(cs: Seq<Seq<char>>) -> Seq<LineV> {
    cs.map_values(|c: Seq<char>| LineV::Comment(c))
}

pub open spec fn marker_tokens(p: bool) -> Seq<LineV> {
    if p {
        seq![LineV::ProductionMarker]
    } else {
        Seq::empty()
    }
}

pub open spec fn header_token(text: Seq<char>, locked: bool) -> LineV {
    if locked {
        LineV::LockedHeader(text)
    } else {
        LineV::Header(text)
    }
}

pub open spec fn pair_token(k: Seq<char>, v: Seq<char>, locked: bool) -> LineV {
    if locked {
        LineV::LockedKeyValue(k, v)
    } else {
        LineV::KeyValue(k, v)
    }
}

pub open spec fn opt_pair_tokens(k: Seq<char>, v: Option<Seq<char>>, locked: bool) -> Seq<LineV> {
    match v {
        None => Seq::empty(),
        Some(x) => seq![pair_token(k, x, locked)],
    }
}

/// The header text of a profile's config-file entry.
pub open spec fn conf_header_text(n: NameV) -> Seq<char> {
    match n {
        NameV::Default => "default"@,
        NameV::Named(s) => "profile "@ + s,
    }
}

pub open spec fn conf_entry_tokens(c: MetaV<ConfV>) -> Seq<LineV> {
    comment_tokens(c.data.comments) + marker_tokens(c.is_production) + seq![
        header_token(conf_header_text(c.name), c.is_locked),
    ] + opt_pair_tokens("region"@, c.data.region, c.is_locked) + opt_pair_tokens(
        "output"@,
        c.data.output,
        c.is_locked,
    )
}

pub open spec fn cred_entry_tokens(c: MetaV<CredV>) -> Seq<LineV> {
    comment_tokens(c.data.comments) + marker_tokens(c.is_production) + seq![
        header_token(name_text(c.name), c.is_locked),
    ] + seq![pair_token("aws_access_key_id"@, c.data.aws_access_key_id, c.is_locked)] + seq![
        pair_token("aws_secret_access_key"@, c.data.aws_secret_access_key, c.is_locked),
    ] + opt_pair_tokens("aws_session_token"@, c.data.aws_session_token, c.is_locked)
        + opt_pair_tokens("aws_session_expiration"@, c.data.aws_session_expiration, c.is_locked)
        + opt_pair_tokens("aws_security_token"@, c.data.aws_security_token, c.is_locked)
        + opt_pair_tokens("region"@, c.data.region, c.is_locked)
}

// ------------------------------------------------------------------
// Tokenization of written line blocks
// ------------------------------------------------------------------

/// Tokenization distributes over concatenation of successful blocks.
proof fn lemma_tokenize_ok_concat(a: Seq<Seq<char>>, b: Seq<Seq<char>>, x: Seq<LineV>, y: Seq<LineV>)
    requires
        spec_tokenize(a) == Ok::<Seq<LineV>, Seq<char>>(x),
        spec_tokenize(b) == Ok::<Seq<LineV>, Seq<char>>(y),
    ensures
        spec_tokenize(a + b) == Ok::<Seq<LineV>, Seq<char>>(x + y),
    decreases a.len(),
{
    if a.len() == 0 {
        assert(a + b =~= b);
        assert(x =~= Seq::<LineV>::empty());
        assert(x + y =~= y);
    } else {
        let t = tokenize_line(a[0])->Some_0;
        let ts = spec_tokenize(a.drop_first())->Ok_0;
        assert(x == seq![t] + ts);
        assert((a + b).drop_first() =~= a.drop_first() + b);
        lemma_tokenize_ok_concat(a.drop_first(), b, ts, y);
        assert((a + b)[0] == a[0]);
        assert(seq![t] + (ts + y) =~= x + y);
    }
}

/// One line, one token.
proof fn lemma_tokenize_single(l: Seq<char>, t: LineV)
    requires
        tokenize_line(l) == Some(t),
    ensures
        spec_tokenize(seq![l]) == Ok::<Seq<LineV>, Seq<char>>(seq![t]),
{
    reveal_with_fuel(spec_tokenize, 2);
    assert(seq![l].drop_first() =~= Seq::<Seq<char>>::empty());
    assert(spec_tokenize(seq![l].drop_first()) == Ok::<Seq<LineV>, Seq<char>>(Seq::empty()));
    assert(seq![t] + Seq::<LineV>::empty() =~= seq![t]);
}

/// A block of written comment lines tokenizes to the comment tokens.
proof fn lemma_tokenize_comments(cs: Seq<Seq<char>>)
    requires
        wf_comments(cs),
    ensures
        spec_tokenize(comment_lines(cs)) == Ok::<Seq<LineV>, Seq<char>>(comment_tokens(cs)),
    decreases cs.len(),
{
    if cs.len() == 0 {
        assert(comment_lines(cs) =~= Seq::<Seq<char>>::empty());
        assert(comment_tokens(cs) =~= Seq::<LineV>::empty());
    } else {
        lemma_classify_comment(cs[0]);
        lemma_tokenize_single("# "@ + cs[0], LineV::Comment(cs[0]));
        assert forall|i: int| 0 <= i < cs.drop_first().len() implies wf_comment(
            #[trigger] cs.drop_first()[i],
        ) by {
            assert(cs.drop_first()[i] == cs[i + 1]);
        }
        lemma_tokenize_comments(cs.drop_first());
        lemma_tokenize_ok_concat(
            seq!["# "@ + cs[0]],
            comment_lines(cs.drop_first()),
            seq![LineV::Comment(cs[0])],
            comment_tokens(cs.drop_first()),
        );
        assert(comment_lines(cs) =~= seq!["# "@ + cs[0]] + comment_lines(cs.drop_first()));
        assert(comment_tokens(cs) =~= seq![LineV::Comment(cs[0])] + comment_tokens(
            cs.drop_first(),
        ));
    }
}

/// The production marker block.
proof fn lemma_tokenize_marker(p: bool)
    ensures
        spec_tokenize(production_lines(p)) == Ok::<Seq<LineV>, Seq<char>>(marker_tokens(p)),
{
    if p {
        lemma_classify_marker();
        lemma_tokenize_single("# production"@, LineV::ProductionMarker);
    }
}

/// The written config-file header line tokenizes to its header token.
proof fn lemma_tokenize_conf_header(n: NameV, locked: bool)
    ensures
        spec_tokenize(seq![conf_header_line(n, locked)]) == Ok::<Seq<LineV>, Seq<char>>(
            seq![header_token(conf_header_text(n), locked)],
        ),
{
    lemma_literals();
    let h = conf_header_text(n);
    let bracketed = "["@ + h + "]"@;
    assert(conf_header_line(n, locked) == lock_prefix(locked) + (match n {
        NameV::Default => "[default]"@,
        NameV::Named(s) => "[profile "@ + s + "]"@,
    }));
    match n {
        NameV::Default => {
            assert("[default]"@ =~= bracketed);
        },
        NameV::Named(s) => {
            assert("[profile "@ + s + "]"@ =~= bracketed);
        },
    }
    if locked {
        assert(conf_header_line(n, locked) =~= "# "@ + bracketed);
        lemma_classify_locked_header(h);
        lemma_tokenize_single("# "@ + bracketed, LineV::LockedHeader(h));
    } else {
        assert(conf_header_line(n, locked) =~= bracketed);
        lemma_classify_header(h);
        lemma_tokenize_single(bracketed, LineV::Header(h));
    }
}

/// The written credentials-file header line tokenizes to its header token.
proof fn lemma_tokenize_cred_header(n: NameV, locked: bool)
    ensures
        spec_tokenize(seq![cred_header_line(n, locked)]) == Ok::<Seq<LineV>, Seq<char>>(
            seq![header_token(name_text(n), locked)],
        ),
{
    lemma_literals();
    let h = name_text(n);
    let bracketed = "["@ + h + "]"@;
    if locked {
        assert(cred_header_line(n, locked) =~= "# "@ + bracketed);
        lemma_classify_locked_header(h);
        lemma_tokenize_single("# "@ + bracketed, LineV::LockedHeader(h));
    } else {
        assert(cred_header_line(n, locked) =~= bracketed);
        lemma_classify_header(h);
        lemma_tokenize_single(bracketed, LineV::Header(h));
    }
}

/// A written optional value line block tokenizes to its token block.
proof fn lemma_tokenize_opt_value(k: Seq<char>, v: Option<Seq<char>>, locked: bool)
    requires
        key_ok(k),
        wf_opt(v),
    ensures
        spec_tokenize(opt_value_lines(lock_prefix(locked), k, v)) == Ok::<Seq<LineV>, Seq<char>>(
            opt_pair_tokens(k, v, locked),
        ),
{
    match v {
        None => {
            assert(opt_value_lines(lock_prefix(locked), k, v) =~= Seq::<Seq<char>>::empty());
        },
        Some(x) => {
            let line = value_line(lock_prefix(locked), k, x);
            if locked {
                assert(line =~= "# "@ + (k + " = "@ + x));
                lemma_classify_locked_value(k, x);
                assert(tokenize_line(line) == Some(LineV::LockedKeyValue(k, x)));
                lemma_tokenize_single(line, LineV::LockedKeyValue(k, x));
            } else {
                assert(line =~= k + " = "@ + x);
                lemma_classify_value(k, x);
                assert(tokenize_line(line) == Some(LineV::KeyValue(k, x)));
                lemma_tokenize_single(line, LineV::KeyValue(k, x));
            }
        },
    }
}

/// The written config-file entry tokenizes to its entry tokens.
proof fn lemma_tokenize_conf_entry(c: MetaV<ConfV>)
    requires
        wf_conf(c),
    ensures
        spec_tokenize(conf_entry_lines(c)) == Ok::<Seq<LineV>, Seq<char>>(conf_entry_tokens(c)),
{
    lemma_cred_keys();
    lemma_tokenize_comments(c.data.comments);
    lemma_tokenize_marker(c.is_production);
    lemma_tokenize_conf_header(c.name, c.is_locked);
    lemma_tokenize_opt_value("region"@, c.data.region, c.is_locked);
    lemma_tokenize_opt_value("output"@, c.data.output, c.is_locked);
    let a1 = comment_lines(c.data.comments);
    let a2 = production_lines(c.is_production);
    let a3 = seq![conf_header_line(c.name, c.is_locked)];
    let a4 = opt_value_lines(lock_prefix(c.is_locked), "region"@, c.data.region);
    let a5 = opt_value_lines(lock_prefix(c.is_locked), "output"@, c.data.output);
    let t1 = comment_tokens(c.data.comments);
    let t2 = marker_tokens(c.is_production);
    let t3 = seq![header_token(conf_header_text(c.name), c.is_locked)];
    let t4 = opt_pair_tokens("region"@, c.data.region, c.is_locked);
    let t5 = opt_pair_tokens("output"@, c.data.output, c.is_locked);
    lemma_tokenize_ok_concat(a1, a2, t1, t2);
    lemma_tokenize_ok_concat(a1 + a2, a3, t1 + t2, t3);
    lemma_tokenize_ok_concat(a1 + a2 + a3, a4, t1 + t2 + t3, t4);
    lemma_tokenize_ok_concat(a1 + a2 + a3 + a4, a5, t1 + t2 + t3 + t4, t5);
}

/// The written credentials-file entry tokenizes to its entry tokens.
proof fn lemma_tokenize_cred_entry(c: MetaV<CredV>)
    requires
        wf_cred(c),
    ensures
        spec_tokenize(cred_entry_lines(c)) == Ok::<Seq<LineV>, Seq<char>>(cred_entry_tokens(c)),
{
    lemma_cred_keys();
    lemma_tokenize_comments(c.data.comments);
    lemma_tokenize_marker(c.is_production);
    lemma_tokenize_cred_header(c.name, c.is_locked);
    let pfx = lock_prefix(c.is_locked);
    let akid_line = value_line(pfx, "aws_access_key_id"@, c.data.aws_access_key_id);
    let sk_line = value_line(pfx, "aws_secret_access_key"@, c.data.aws_secret_access_key);
    lemma_tokenize_opt_value(
        "aws_access_key_id"@,
        Some(c.data.aws_access_key_id),
        c.is_locked,
    );
    lemma_tokenize_opt_value(
        "aws_secret_access_key"@,
        Some(c.data.aws_secret_access_key),
        c.is_locked,
    );
    lemma_tokenize_opt_value("aws_session_token"@, c.data.aws_session_token, c.is_locked);
    lemma_tokenize_opt_value(
        "aws_session_expiration"@,
        c.data.aws_session_expiration,
        c.is_locked,
    );
    lemma_tokenize_opt_value("aws_security_token"@, c.data.aws_security_token, c.is_locked);
    lemma_tokenize_opt_value("region"@, c.data.region, c.is_locked);
    let a1 = comment_lines(c.data.comments);
    let a2 = production_lines(c.is_production);
    let a3 = seq![cred_header_line(c.name, c.is_locked)];
    let a4 = seq![akid_line];
    let a5 = seq![sk_line];
    let a6 = opt_value_lines(pfx, "aws_session_token"@, c.data.aws_session_token);
    let a7 = opt_value_lines(pfx, "aws_session_expiration"@, c.data.aws_session_expiration);
    let a8 = opt_value_lines(pfx, "aws_security_token"@, c.data.aws_security_token);
    let a9 = opt_value_lines(pfx, "region"@, c.data.region);
    let t1 = comment_tokens(c.data.comments);
    let t2 = marker_tokens(c.is_production);
    let t3 = seq![header_token(name_text(c.name), c.is_locked)];
    let t4 = seq![pair_token("aws_access_key_id"@, c.data.aws_access_key_id, c.is_locked)];
    let t5 = seq![pair_token("aws_secret_access_key"@, c.data.aws_secret_access_key, c.is_locked)];
    let t6 = opt_pair_tokens("aws_session_token"@, c.data.aws_session_token, c.is_locked);
    let t7 = opt_pair_tokens("aws_session_expiration"@, c.data.aws_session_expiration, c.is_locked);
    let t8 = opt_pair_tokens("aws_security_token"@, c.data.aws_security_token, c.is_locked);
    let t9 = opt_pair_tokens("region"@, c.data.region, c.is_locked);
    assert(opt_value_lines(pfx, "aws_access_key_id"@, Some(c.data.aws_access_key_id)) =~= a4);
    assert(opt_pair_tokens("aws_access_key_id"@, Some(c.data.aws_access_key_id), c.is_locked)
        =~= t4);
    assert(opt_value_lines(pfx, "aws_secret_access_key"@, Some(c.data.aws_secret_access_key))
        =~= a5);
    assert(opt_pair_tokens(
        "aws_secret_access_key"@,
        Some(c.data.aws_secret_access_key),
        c.is_locked,
    ) =~= t5);
    lemma_tokenize_ok_concat(a1, a2, t1, t2);
    lemma_tokenize_ok_concat(a1 + a2, a3, t1 + t2, t3);
    lemma_tokenize_ok_concat(a1 + a2 + a3, a4, t1 + t2 + t3, t4);
    lemma_tokenize_ok_concat(a1 + a2 + a3 + a4, a5, t1 + t2 + t3 + t4, t5);
    lemma_tokenize_ok_concat(a1 + a2 + a3 + a4 + a5, a6, t1 + t2 + t3 + t4 + t5, t6);
    lemma_tokenize_ok_concat(a1 + a2 + a3 + a4 + a5 + a6, a7, t1 + t2 + t3 + t4 + t5 + t6, t7);
    lemma_tokenize_ok_concat(
        a1 + a2 + a3 + a4 + a5 + a6 + a7,
        a8,
        t1 + t2 + t3 + t4 + t5 + t6 + t7,
        t8,
    );
    lemma_tokenize_ok_concat(
        a1 + a2 + a3 + a4 + a5 + a6 + a7 + a8,
        a9,
        t1 + t2 + t3 + t4 + t5 + t6 + t7 + t8,
        t9,
    );
}

// ------------------------------------------------------------------
// The written tokens parse back to the written entries
// ------------------------------------------------------------------

pub open spec fn opt_pairs(k: Seq<char>, v: Option<Seq<char>>) -> Seq<(Seq<char>, Seq<char>)> {
    match v {
        None => Seq::empty(),
        Some(x) => seq![(k, x)],
    }
}

/// The key/value pairs of a profile's config-file entry, in written order.
pub open spec fn conf_pairs(c: MetaV<ConfV>) -> Seq<(Seq<char>, Seq<char>)> {
    opt_pairs("region"@, c.data.region) + opt_pairs("output"@, c.data.output)
}

/// The key/value pairs of a profile's credentials-file entry, in written
/// order.
pub open spec fn cred_pairs(c: MetaV<CredV>) -> Seq<(Seq<char>, Seq<char>)> {
    seq![("aws_access_key_id"@, c.data.aws_access_key_id)] + seq![
        ("aws_secret_access_key"@, c.data.aws_secret_access_key),
    ] + opt_pairs("aws_session_token"@, c.data.aws_session_token) + opt_pairs(
        "aws_session_expiration"@,
        c.data.aws_session_expiration,
    ) + opt_pairs("aws_security_token"@, c.data.aws_security_token) + opt_pairs(
        "region"@,
        c.data.region,
    )
}

pub open spec fn pair_tokens(pairs: Seq<(Seq<char>, Seq<char>)>, locked: bool) -> Seq<LineV> {
    pairs.map_values(|pr: (Seq<char>, Seq<char>)| pair_token(pr.0, pr.1, locked))
}

/// The entry the parser recovers from a profile's config-file tokens.
pub open spec fn conf_entry_of(p: MetaV<ProfV>) -> EntryV {
    EntryV {
        comments: p.data.conf.comments,
        is_production: p.is_production,
        is_locked: p.is_locked,
        header: conf_header_text(p.name),
        values: conf_pairs(crate::aws_profile::conf_side(p)),
    }
}

/// The entry the parser recovers from a profile's credentials-file tokens.
pub open spec fn cred_entry_of(p: MetaV<ProfV>) -> EntryV {
    EntryV {
        comments: p.data.cred.comments,
        is_production: p.is_production,
        is_locked: p.is_locked,
        header: name_text(p.name),
        values: cred_pairs(crate::aws_profile::cred_side(p)),
    }
}

/// Does the token stream begin like a written entry?
pub open spec fn entry_head_ok(ts: Seq<LineV>) -> bool {
    ts.len() > 0 && (ts[0] is Comment || ts[0] is ProductionMarker || ts[0] is Header || ts[0]
        is LockedHeader)
}

/// The production scan collects exactly the leading comment tokens, then
/// consumes a marker or stops.
proof fn lemma_p_production_comments(cs: Seq<Seq<char>>, rest: Seq<LineV>)
    requires
        rest.len() > 0,
        !(rest[0] is Empty),
        !(rest[0] is Comment),
    ensures
        rest[0] is ProductionMarker ==> p_production(comment_tokens(cs) + rest) == Ok::<
            (Seq<Seq<char>>, bool, Seq<LineV>),
            crate::error::ErrV,
        >((cs, true, rest.drop_first())),
        !(rest[0] is ProductionMarker) ==> p_production(comment_tokens(cs) + rest) == Ok::<
            (Seq<Seq<char>>, bool, Seq<LineV>),
            crate::error::ErrV,
        >((cs, false, rest)),
    decreases cs.len(),
{
    let ts = comment_tokens(cs) + rest;
    if cs.len() == 0 {
        assert(ts =~= rest);
        assert(cs =~= Seq::<Seq<char>>::empty());
        if rest[0] is ProductionMarker {
            assert(p_production(rest) == Ok::<(Seq<Seq<char>>, bool, Seq<LineV>), crate::error::ErrV>(
                (Seq::empty(), true, rest.drop_first()),
            ));
        } else {
            assert(p_production(rest) == Ok::<(Seq<Seq<char>>, bool, Seq<LineV>), crate::error::ErrV>(
                (Seq::empty(), false, rest),
            ));
        }
    } else {
        assert(ts[0] == LineV::Comment(cs[0]));
        assert(ts.drop_first() =~= comment_tokens(cs.drop_first()) + rest);
        lemma_p_production_comments(cs.drop_first(), rest);
        assert(seq![cs[0]] + cs.drop_first() =~= cs);
    }
}

/// The value scan consumes pair tokens of the entry's locked-ness,
/// appending each to the accumulator.
proof fn lemma_p_values_pairs(
    pairs: Seq<(Seq<char>, Seq<char>)>,
    locked: bool,
    acc: Seq<(Seq<char>, Seq<char>)>,
    rest: Seq<LineV>,
)
    requires
        forall|i: int, j: int| 0 <= i < j < pairs.len() ==> pairs[i].0 != pairs[j].0,
        forall|i: int, u: int|
            0 <= i < pairs.len() && 0 <= u < acc.len() ==> acc[u].0 != pairs[i].0,
    ensures
        p_values(pair_tokens(pairs, locked) + rest, locked, acc) == p_values(
            rest,
            locked,
            acc + pairs,
        ),
    decreases pairs.len(),
{
    let ts = pair_tokens(pairs, locked) + rest;
    if pairs.len() == 0 {
        assert(ts =~= rest);
        assert(acc + pairs =~= acc);
    } else {
        let (k, v) = pairs[0];
        assert(ts[0] == pair_token(k, v, locked));
        assert(ts.drop_first() =~= pair_tokens(pairs.drop_first(), locked) + rest);
        assert forall|u: int| 0 <= u < acc.len() implies acc[u].0 != k by {
            assert(acc[u].0 != pairs[0].0);
        }
        lemma_vals_insert_absent(acc, k, v);
        let acc2 = acc.push((k, v));
        assert(vals_insert(acc, k, v) == acc2);
        assert forall|i: int, j: int|
            0 <= i < j < pairs.drop_first().len() implies pairs.drop_first()[i].0
            != pairs.drop_first()[j].0 by {
            assert(pairs.drop_first()[i] == pairs[i + 1]);
            assert(pairs.drop_first()[j] == pairs[j + 1]);
        }
        assert forall|i: int, u: int|
            0 <= i < pairs.drop_first().len() && 0 <= u < acc2.len() implies acc2[u].0
            != pairs.drop_first()[i].0 by {
            assert(pairs.drop_first()[i] == pairs[i + 1]);
            if u < acc.len() {
                assert(acc2[u] == acc[u]);
            } else {
                assert(acc2[u] == pairs[0]);
            }
        }
        lemma_p_values_pairs(pairs.drop_first(), locked, acc2, rest);
        assert(acc2 + pairs.drop_first() =~= acc + pairs);
    }
}

/// One written entry parses to exactly its entry record, leaving the
/// following entries untouched (past the one separating blank line).
proof fn lemma_parse_one_entry(
    cs: Seq<Seq<char>>,
    prod: bool,
    locked: bool,
    h: Seq<char>,
    pairs: Seq<(Seq<char>, Seq<char>)>,
    rest: Seq<LineV>,
)
    requires
        forall|i: int, j: int| 0 <= i < j < pairs.len() ==> pairs[i].0 != pairs[j].0,
        rest.len() == 0 || (rest[0] is Empty && entry_head_ok(rest.drop_first())),
    ensures
        spec_parse_one(
            comment_tokens(cs) + marker_tokens(prod) + seq![header_token(h, locked)] + pair_tokens(
                pairs,
                locked,
            ) + rest,
        ) == Ok::<Option<(EntryV, Seq<LineV>)>, crate::error::ErrV>(
            Some(
                (
                    EntryV {
                        comments: cs,
                        is_production: prod,
                        is_locked: locked,
                        header: h,
                        values: pairs,
                    },
                    if rest.len() == 0 {
                        rest
                    } else {
                        rest.drop_first()
                    },
                ),
            ),
        ),
{
    let hdr = header_token(h, locked);
    let ts = comment_tokens(cs) + marker_tokens(prod) + seq![hdr] + pair_tokens(pairs, locked)
        + rest;
    let after_comments = marker_tokens(prod) + seq![hdr] + pair_tokens(pairs, locked) + rest;
    assert(ts =~= comment_tokens(cs) + after_comments);
    // no leading blank line
    assert(ts.len() > 0);
    assert(!(ts[0] is Empty)) by {
        if cs.len() > 0 {
            assert(ts[0] == LineV::Comment(cs[0]));
        } else if prod {
            assert(ts[0] == LineV::ProductionMarker);
        } else {
            assert(ts[0] == hdr);
        }
    }
    assert(skip_empties(ts) == ts);
    // the production scan
    let after_marker = seq![hdr] + pair_tokens(pairs, locked) + rest;
    assert(after_comments[0] == if prod {
        LineV::ProductionMarker
    } else {
        hdr
    });
    lemma_p_production_comments(cs, after_comments);
    if prod {
        assert(after_comments.drop_first() =~= after_marker);
        assert(p_production(ts) == Ok::<(Seq<Seq<char>>, bool, Seq<LineV>), crate::error::ErrV>(
            (cs, true, after_marker),
        ));
    } else {
        assert(after_comments =~= after_marker);
        assert(p_production(ts) == Ok::<(Seq<Seq<char>>, bool, Seq<LineV>), crate::error::ErrV>(
            (cs, false, after_marker),
        ));
    }
    // the locked-ness peek and the header
    assert(after_marker[0] == hdr);
    assert(p_locked(after_marker) == Ok::<(Seq<Seq<char>>, bool, Seq<LineV>), crate::error::ErrV>(
        (Seq::empty(), locked, after_marker),
    ));
    let after_header = pair_tokens(pairs, locked) + rest;
    assert(after_marker.drop_first() =~= after_header);
    assert(p_header(after_marker, locked) == Ok::<
        (Seq<Seq<char>>, Seq<char>, Seq<LineV>),
        crate::error::ErrV,
    >((Seq::empty(), h, after_header)));
    // the values
    lemma_p_values_pairs(pairs, locked, Seq::empty(), rest);
    assert(Seq::<(Seq<char>, Seq<char>)>::empty() + pairs =~= pairs);
    if rest.len() == 0 {
        assert(p_values(rest, locked, pairs) == Ok::<
            (Seq<(Seq<char>, Seq<char>)>, Seq<LineV>),
            crate::error::ErrV,
        >((pairs, rest)));
    } else {
        let next = rest.drop_first();
        assert(rest[0] is Empty);
        assert(p_values(rest, locked, pairs) == p_values(next, locked, pairs));
        assert(next.len() > 0);
        assert(p_values(next, locked, pairs) == Ok::<
            (Seq<(Seq<char>, Seq<char>)>, Seq<LineV>),
            crate::error::ErrV,
        >((pairs, next)));
    }
    // assembling the entry
    assert(cs + Seq::<Seq<char>>::empty() + Seq::<Seq<char>>::empty() =~= cs);
}

// ------------------------------------------------------------------
// Whole-file token streams
// ------------------------------------------------------------------

pub open spec fn conf_tokens_rest(ps: Seq<MetaV<ProfV>>) -> Seq<LineV>
    decreases ps.len(),
{
    if ps.len() == 0 {
        Seq::empty()
    } else {
        seq![LineV::Empty] + conf_entry_tokens(crate::aws_profile::conf_side(ps[0]))
            + conf_tokens_rest(ps.drop_first())
    }
}

pub open spec fn conf_tokens(ps: Seq<MetaV<ProfV>>) -> Seq<LineV> {
    if ps.len() == 0 {
        Seq::empty()
    } else {
        conf_entry_tokens(crate::aws_profile::conf_side(ps[0])) + conf_tokens_rest(
            ps.drop_first(),
        )
    }
}

pub open spec fn cred_tokens_rest(ps: Seq<MetaV<ProfV>>) -> Seq<LineV>
    decreases ps.len(),
{
    if ps.len() == 0 {
        Seq::empty()
    } else {
        seq![LineV::Empty] + cred_entry_tokens(crate::aws_profile::cred_side(ps[0]))
            + cred_tokens_rest(ps.drop_first())
    }
}

pub open spec fn cred_tokens(ps: Seq<MetaV<ProfV>>) -> Seq<LineV> {
    if ps.len() == 0 {
        Seq::empty()
    } else {
        cred_entry_tokens(crate::aws_profile::cred_side(ps[0])) + cred_tokens_rest(
            ps.drop_first(),
        )
    }
}

pub open spec fn all_wf(ps: Seq<MetaV<ProfV>>) -> bool {
    forall|i: int| 0 <= i < ps.len() ==> wf_profile(#[trigger] ps[i])
}

proof fn lemma_all_wf_drop(ps: Seq<MetaV<ProfV>>)
    requires
        all_wf(ps),
        ps.len() > 0,
    ensures
        all_wf(ps.drop_first()),
{
    assert forall|i: int| 0 <= i < ps.drop_first().len() implies wf_profile(
        #[trigger] ps.drop_first()[i],
    ) by {
        assert(ps.drop_first()[i] == ps[i + 1]);
    }
}

proof fn lemma_tokenize_config_rest(ps: Seq<MetaV<ProfV>>)
    requires
        all_wf(ps),
    ensures
        spec_tokenize(crate::aws_profile::config_lines_rest(ps)) == Ok::<Seq<LineV>, Seq<char>>(
            conf_tokens_rest(ps),
        ),
    decreases ps.len(),
{
    if ps.len() == 0 {
        assert(spec_tokenize(crate::aws_profile::config_lines_rest(ps)) == Ok::<
            Seq<LineV>,
            Seq<char>,
        >(Seq::empty()));
        assert(conf_tokens_rest(ps) =~= Seq::<LineV>::empty());
    } else {
        let c = crate::aws_profile::conf_side(ps[0]);
        assert(wf_profile(ps[0]));
        lemma_classify_blank();
        lemma_tokenize_single(Seq::<char>::empty(), LineV::Empty);
        lemma_tokenize_conf_entry(c);
        lemma_all_wf_drop(ps);
        lemma_tokenize_config_rest(ps.drop_first());
        lemma_tokenize_ok_concat(
            seq![Seq::<char>::empty()],
            conf_entry_lines(c),
            seq![LineV::Empty],
            conf_entry_tokens(c),
        );
        lemma_tokenize_ok_concat(
            seq![Seq::<char>::empty()] + conf_entry_lines(c),
            crate::aws_profile::config_lines_rest(ps.drop_first()),
            seq![LineV::Empty] + conf_entry_tokens(c),
            conf_tokens_rest(ps.drop_first()),
        );
    }
}

/// The written config file's lines tokenize to its token stream.
proof fn lemma_tokenize_config(ps: Seq<MetaV<ProfV>>)
    requires
        all_wf(ps),
    ensures
        spec_tokenize(crate::aws_profile::config_lines(ps)) == Ok::<Seq<LineV>, Seq<char>>(
            conf_tokens(ps),
        ),
{
    if ps.len() == 0 {
        assert(conf_tokens(ps) =~= Seq::<LineV>::empty());
    } else {
        let c = crate::aws_profile::conf_side(ps[0]);
        assert(wf_profile(ps[0]));
        lemma_tokenize_conf_entry(c);
        lemma_all_wf_drop(ps);
        lemma_tokenize_config_rest(ps.drop_first());
        lemma_tokenize_ok_concat(
            conf_entry_lines(c),
            crate::aws_profile::config_lines_rest(ps.drop_first()),
            conf_entry_tokens(c),
            conf_tokens_rest(ps.drop_first()),
        );
    }
}

proof fn lemma_tokenize_credentials_rest(ps: Seq<MetaV<ProfV>>)
    requires
        all_wf(ps),
    ensures
        spec_tokenize(crate::aws_profile::credentials_lines_rest(ps)) == Ok::<
            Seq<LineV>,
            Seq<char>,
        >(cred_tokens_rest(ps)),
    decreases ps.len(),
{
    if ps.len() == 0 {
        assert(spec_tokenize(crate::aws_profile::credentials_lines_rest(ps)) == Ok::<
            Seq<LineV>,
            Seq<char>,
        >(Seq::empty()));
        assert(cred_tokens_rest(ps) =~= Seq::<LineV>::empty());
    } else {
        let c = crate::aws_profile::cred_side(ps[0]);
        assert(wf_profile(ps[0]));
        lemma_classify_blank();
        lemma_tokenize_single(Seq::<char>::empty(), LineV::Empty);
        lemma_tokenize_cred_entry(c);
        lemma_all_wf_drop(ps);
        lemma_tokenize_credentials_rest(ps.drop_first());
        lemma_tokenize_ok_concat(
            seq![Seq::<char>::empty()],
            cred_entry_lines(c),
            seq![LineV::Empty],
            cred_entry_tokens(c),
        );
        lemma_tokenize_ok_concat(
            seq![Seq::<char>::empty()] + cred_entry_lines(c),
            crate::aws_profile::credentials_lines_rest(ps.drop_first()),
            seq![LineV::Empty] + cred_entry_tokens(c),
            cred_tokens_rest(ps.drop_first()),
        );
    }
}

/// The written credentials file's lines tokenize to its token stream.
proof fn lemma_tokenize_credentials(ps: Seq<MetaV<ProfV>>)
    requires
        all_wf(ps),
    ensures
        spec_tokenize(crate::aws_profile::credentials_lines(ps)) == Ok::<Seq<LineV>, Seq<char>>(
            cred_tokens(ps),
        ),
{
    if ps.len() == 0 {
        assert(cred_tokens(ps) =~= Seq::<LineV>::empty());
    } else {
        let c = crate::aws_profile::cred_side(ps[0]);
        assert(wf_profile(ps[0]));
        lemma_tokenize_cred_entry(c);
        lemma_all_wf_drop(ps);
        lemma_tokenize_credentials_rest(ps.drop_first());
        lemma_tokenize_ok_concat(
            cred_entry_lines(c),
            crate::aws_profile::credentials_lines_rest(ps.drop_first()),
            cred_entry_tokens(c),
            cred_tokens_rest(ps.drop_first()),
        );
    }
}

// ------------------------------------------------------------------
// Whole-file parsing of the token streams
// ------------------------------------------------------------------

/// The two optional config keys are distinct.
proof fn lemma_conf_pairs_distinct(c: MetaV<ConfV>)
    ensures
        forall|i: int, j: int|
            0 <= i < j < conf_pairs(c).len() ==> conf_pairs(c)[i].0 != conf_pairs(c)[j].0,
{
    lemma_cred_keys();
}

/// The credentials keys are pairwise distinct.
proof fn lemma_cred_pairs_distinct(c: MetaV<CredV>)
    ensures
        forall|i: int, j: int|
            0 <= i < j < cred_pairs(c).len() ==> cred_pairs(c)[i].0 != cred_pairs(c)[j].0,
{
    lemma_cred_keys();
}

/// The token shape of a config entry, reassociated around its pair list.
proof fn lemma_conf_entry_tokens_shape(c: MetaV<ConfV>)
    ensures
        conf_entry_tokens(c) == comment_tokens(c.data.comments) + marker_tokens(c.is_production)
            + seq![header_token(conf_header_text(c.name), c.is_locked)] + pair_tokens(
            conf_pairs(c),
            c.is_locked,
        ) + Seq::<LineV>::empty(),
{
    assert(pair_tokens(conf_pairs(c), c.is_locked) =~= opt_pair_tokens(
        "region"@,
        c.data.region,
        c.is_locked,
    ) + opt_pair_tokens("output"@, c.data.output, c.is_locked));
    assert(conf_entry_tokens(c) =~= comment_tokens(c.data.comments) + marker_tokens(
        c.is_production,
    ) + seq![header_token(conf_header_text(c.name), c.is_locked)] + pair_tokens(
        conf_pairs(c),
        c.is_locked,
    ) + Seq::<LineV>::empty());
}

/// The token shape of a credentials entry, reassociated around its pair
/// list.
proof fn lemma_cred_entry_tokens_shape(c: MetaV<CredV>)
    ensures
        cred_entry_tokens(c) == comment_tokens(c.data.comments) + marker_tokens(c.is_production)
            + seq![header_token(name_text(c.name), c.is_locked)] + pair_tokens(
            cred_pairs(c),
            c.is_locked,
        ) + Seq::<LineV>::empty(),
{
    assert(pair_tokens(cred_pairs(c), c.is_locked) =~= seq![
        pair_token("aws_access_key_id"@, c.data.aws_access_key_id, c.is_locked),
    ] + seq![pair_token("aws_secret_access_key"@, c.data.aws_secret_access_key, c.is_locked)]
        + opt_pair_tokens("aws_session_token"@, c.data.aws_session_token, c.is_locked)
        + opt_pair_tokens("aws_session_expiration"@, c.data.aws_session_expiration, c.is_locked)
        + opt_pair_tokens("aws_security_token"@, c.data.aws_security_token, c.is_locked)
        + opt_pair_tokens("region"@, c.data.region, c.is_locked));
    assert(cred_entry_tokens(c) =~= comment_tokens(c.data.comments) + marker_tokens(
        c.is_production,
    ) + seq![header_token(name_text(c.name), c.is_locked)] + pair_tokens(
        cred_pairs(c),
        c.is_locked,
    ) + Seq::<LineV>::empty());
}

proof fn lemma_conf_entry_head(c: MetaV<ConfV>)
    ensures
        entry_head_ok(conf_entry_tokens(c)),
{
    let ts = conf_entry_tokens(c);
    if c.data.comments.len() > 0 {
        assert(ts[0] == LineV::Comment(c.data.comments[0]));
    } else if c.is_production {
        assert(ts[0] == LineV::ProductionMarker);
    } else {
        assert(ts[0] == header_token(conf_header_text(c.name), c.is_locked));
    }
}

proof fn lemma_cred_entry_head(c: MetaV<CredV>)
    ensures
        entry_head_ok(cred_entry_tokens(c)),
{
    let ts = cred_entry_tokens(c);
    if c.data.comments.len() > 0 {
        assert(ts[0] == LineV::Comment(c.data.comments[0]));
    } else if c.is_production {
        assert(ts[0] == LineV::ProductionMarker);
    } else {
        assert(ts[0] == header_token(name_text(c.name), c.is_locked));
    }
}

/// The written config token stream parses to the config entries, one per
/// profile, in order.
proof fn lemma_parse_config_tokens(ps: Seq<MetaV<ProfV>>)
    ensures
        spec_parse(conf_tokens(ps)) == Ok::<Seq<EntryV>, crate::error::ErrV>(
            ps.map_values(|p: MetaV<ProfV>| conf_entry_of(p)),
        ),
    decreases ps.len(),
{
    let entries = ps.map_values(|p: MetaV<ProfV>| conf_entry_of(p));
    if ps.len() == 0 {
        assert(conf_tokens(ps) =~= Seq::<LineV>::empty());
        assert(skip_empties(Seq::<LineV>::empty()) == Seq::<LineV>::empty());
        assert(entries =~= Seq::<EntryV>::empty());
    } else {
        let c = crate::aws_profile::conf_side(ps[0]);
        let rest = conf_tokens_rest(ps.drop_first());
        lemma_conf_pairs_distinct(c);
        lemma_conf_entry_tokens_shape(c);
        if ps.drop_first().len() > 0 {
            lemma_conf_entry_head(crate::aws_profile::conf_side(ps.drop_first()[0]));
            assert(rest[0] is Empty);
            assert(rest.drop_first() =~= conf_entry_tokens(
                crate::aws_profile::conf_side(ps.drop_first()[0]),
            ) + conf_tokens_rest(ps.drop_first().drop_first()));
            assert(entry_head_ok(rest.drop_first())) by {
                let h = conf_entry_tokens(crate::aws_profile::conf_side(ps.drop_first()[0]));
                assert(rest.drop_first()[0] == h[0]);
            }
        } else {
            assert(rest =~= Seq::<LineV>::empty());
        }
        lemma_parse_one_entry(
            c.data.comments,
            c.is_production,
            c.is_locked,
            conf_header_text(c.name),
            conf_pairs(c),
            rest,
        );
        let shaped = comment_tokens(c.data.comments) + marker_tokens(c.is_production) + seq![
            header_token(conf_header_text(c.name), c.is_locked),
        ] + pair_tokens(conf_pairs(c), c.is_locked) + rest;
        assert(conf_tokens(ps) =~= shaped) by {
            assert(conf_entry_tokens(c) + Seq::<LineV>::empty() =~= conf_entry_tokens(c));
            assert(conf_tokens(ps) =~= conf_entry_tokens(c) + rest);
        }
        let e0 = EntryV {
            comments: c.data.comments,
            is_production: c.is_production,
            is_locked: c.is_locked,
            header: conf_header_text(c.name),
            values: conf_pairs(c),
        };
        assert(e0 =~= conf_entry_of(ps[0]));
        let after = if rest.len() == 0 {
            rest
        } else {
            rest.drop_first()
        };
        assert(spec_parse_one(conf_tokens(ps)) == Ok::<
            Option<(EntryV, Seq<LineV>)>,
            crate::error::ErrV,
        >(Some((e0, after))));
        assert(after =~= conf_tokens(ps.drop_first()));
        lemma_parse_config_tokens(ps.drop_first());
        assert(entries =~= seq![conf_entry_of(ps[0])] + ps.drop_first().map_values(
            |p: MetaV<ProfV>| conf_entry_of(p),
        ));
    }
}

/// The written credentials token stream parses to the credentials entries.
proof fn lemma_parse_credentials_tokens(ps: Seq<MetaV<ProfV>>)
    ensures
        spec_parse(cred_tokens(ps)) == Ok::<Seq<EntryV>, crate::error::ErrV>(
            ps.map_values(|p: MetaV<ProfV>| cred_entry_of(p)),
        ),
    decreases ps.len(),
{
    let entries = ps.map_values(|p: MetaV<ProfV>| cred_entry_of(p));
    if ps.len() == 0 {
        assert(cred_tokens(ps) =~= Seq::<LineV>::empty());
        assert(skip_empties(Seq::<LineV>::empty()) == Seq::<LineV>::empty());
        assert(entries =~= Seq::<EntryV>::empty());
    } else {
        let c = crate::aws_profile::cred_side(ps[0]);
        let rest = cred_tokens_rest(ps.drop_first());
        lemma_cred_pairs_distinct(c);
        lemma_cred_entry_tokens_shape(c);
        if ps.drop_first().len() > 0 {
            lemma_cred_entry_head(crate::aws_profile::cred_side(ps.drop_first()[0]));
            assert(rest[0] is Empty);
            assert(rest.drop_first() =~= cred_entry_tokens(
                crate::aws_profile::cred_side(ps.drop_first()[0]),
            ) + cred_tokens_rest(ps.drop_first().drop_first()));
            assert(entry_head_ok(rest.drop_first())) by {
                let h = cred_entry_tokens(crate::aws_profile::cred_side(ps.drop_first()[0]));
                assert(rest.drop_first()[0] == h[0]);
            }
        } else {
            assert(rest =~= Seq::<LineV>::empty());
        }
        lemma_parse_one_entry(
            c.data.comments,
            c.is_production,
            c.is_locked,
            name_text(c.name),
            cred_pairs(c),
            rest,
        );
        let shaped = comment_tokens(c.data.comments) + marker_tokens(c.is_production) + seq![
            header_token(name_text(c.name), c.is_locked),
        ] + pair_tokens(cred_pairs(c), c.is_locked) + rest;
        assert(cred_tokens(ps) =~= shaped) by {
            assert(cred_entry_tokens(c) + Seq::<LineV>::empty() =~= cred_entry_tokens(c));
            assert(cred_tokens(ps) =~= cred_entry_tokens(c) + rest);
        }
        let e0 = EntryV {
            comments: c.data.comments,
            is_production: c.is_production,
            is_locked: c.is_locked,
            header: name_text(c.name),
            values: cred_pairs(c),
        };
        assert(e0 =~= cred_entry_of(ps[0]));
        let after = if rest.len() == 0 {
            rest
        } else {
            rest.drop_first()
        };
        assert(spec_parse_one(cred_tokens(ps)) == Ok::<
            Option<(EntryV, Seq<LineV>)>,
            crate::error::ErrV,
        >(Some((e0, after))));
        assert(after =~= cred_tokens(ps.drop_first()));
        lemma_parse_credentials_tokens(ps.drop_first());
        assert(entries =~= seq![cred_entry_of(ps[0])] + ps.drop_first().map_values(
            |p: MetaV<ProfV>| cred_entry_of(p),
        ));
    }
}

// ------------------------------------------------------------------
// The recovered entries carry the original records
// ------------------------------------------------------------------

/// Peeling one optional pair off the front of a value list: a different
/// key passes it, the matching key takes its value if present.
proof fn lemma_lookup_opt(
    k1: Seq<char>,
    v: Option<Seq<char>>,
    b: Seq<(Seq<char>, Seq<char>)>,
    k: Seq<char>,
)
    ensures
        k1 != k ==> spec_lookup(opt_pairs(k1, v) + b, k) == spec_lookup(b, k),
        k1 == k ==> spec_lookup(opt_pairs(k1, v) + b, k) == (if v is Some {
            v
        } else {
            spec_lookup(b, k)
        }),
{
    match v {
        None => {
            assert(opt_pairs(k1, v) + b =~= b);
        },
        Some(x) => {
            let l = opt_pairs(k1, v) + b;
            assert(l[0] == (k1, x));
            assert(l.drop_first() =~= b);
        },
    }
}

/// The config entry's value list answers exactly the config lookups.
proof fn lemma_conf_lookups(c: MetaV<ConfV>)
    ensures
        spec_lookup(conf_pairs(c), "region"@) == c.data.region,
        spec_lookup(conf_pairs(c), "output"@) == c.data.output,
{
    lemma_cred_keys();
    let o1 = opt_pairs("region"@, c.data.region);
    let o2 = opt_pairs("output"@, c.data.output);
    let empty = Seq::<(Seq<char>, Seq<char>)>::empty();
    assert(conf_pairs(c) =~= o1 + (o2 + empty));
    lemma_lookup_opt("region"@, c.data.region, o2 + empty, "region"@);
    lemma_lookup_opt("output"@, c.data.output, empty, "region"@);
    lemma_lookup_opt("region"@, c.data.region, o2 + empty, "output"@);
    lemma_lookup_opt("output"@, c.data.output, empty, "output"@);
}

/// The credentials entry's value list answers exactly the credentials
/// lookups.
proof fn lemma_cred_lookups(c: MetaV<CredV>)
    ensures
        spec_lookup(cred_pairs(c), "aws_access_key_id"@) == Some(c.data.aws_access_key_id),
        spec_lookup(cred_pairs(c), "aws_secret_access_key"@) == Some(
            c.data.aws_secret_access_key,
        ),
        spec_lookup(cred_pairs(c), "aws_session_token"@) == c.data.aws_session_token,
        spec_lookup(cred_pairs(c), "aws_session_expiration"@) == c.data.aws_session_expiration,
        spec_lookup(cred_pairs(c), "aws_security_token"@) == c.data.aws_security_token,
        spec_lookup(cred_pairs(c), "region"@) == c.data.region,
{
    lemma_cred_keys();
    let o1 = opt_pairs("aws_access_key_id"@, Some(c.data.aws_access_key_id));
    let o2 = opt_pairs("aws_secret_access_key"@, Some(c.data.aws_secret_access_key));
    let o3 = opt_pairs("aws_session_token"@, c.data.aws_session_token);
    let o4 = opt_pairs("aws_session_expiration"@, c.data.aws_session_expiration);
    let o5 = opt_pairs("aws_security_token"@, c.data.aws_security_token);
    let o6 = opt_pairs("region"@, c.data.region);
    let empty = Seq::<(Seq<char>, Seq<char>)>::empty();
    let b6 = o6 + empty;
    let b5 = o5 + b6;
    let b4 = o4 + b5;
    let b3 = o3 + b4;
    let b2 = o2 + b3;
    assert(cred_pairs(c) =~= o1 + b2);
    // each key peels the layers before its own
    lemma_lookup_opt("aws_access_key_id"@, Some(c.data.aws_access_key_id), b2, "aws_access_key_id"@);
    lemma_lookup_opt("aws_access_key_id"@, Some(c.data.aws_access_key_id), b2, "aws_secret_access_key"@);
    lemma_lookup_opt("aws_secret_access_key"@, Some(c.data.aws_secret_access_key), b3, "aws_secret_access_key"@);
    lemma_lookup_opt("aws_access_key_id"@, Some(c.data.aws_access_key_id), b2, "aws_session_token"@);
    lemma_lookup_opt("aws_secret_access_key"@, Some(c.data.aws_secret_access_key), b3, "aws_session_token"@);
    lemma_lookup_opt("aws_session_token"@, c.data.aws_session_token, b4, "aws_session_token"@);
    lemma_lookup_opt("aws_session_expiration"@, c.data.aws_session_expiration, b5, "aws_session_token"@);
    lemma_lookup_opt("aws_security_token"@, c.data.aws_security_token, b6, "aws_session_token"@);
    lemma_lookup_opt("region"@, c.data.region, empty, "aws_session_token"@);
    lemma_lookup_opt("aws_access_key_id"@, Some(c.data.aws_access_key_id), b2, "aws_session_expiration"@);
    lemma_lookup_opt("aws_secret_access_key"@, Some(c.data.aws_secret_access_key), b3, "aws_session_expiration"@);
    lemma_lookup_opt("aws_session_token"@, c.data.aws_session_token, b4, "aws_session_expiration"@);
    lemma_lookup_opt("aws_session_expiration"@, c.data.aws_session_expiration, b5, "aws_session_expiration"@);
    lemma_lookup_opt("aws_security_token"@, c.data.aws_security_token, b6, "aws_session_expiration"@);
    lemma_lookup_opt("region"@, c.data.region, empty, "aws_session_expiration"@);
    lemma_lookup_opt("aws_access_key_id"@, Some(c.data.aws_access_key_id), b2, "aws_security_token"@);
    lemma_lookup_opt("aws_secret_access_key"@, Some(c.data.aws_secret_access_key), b3, "aws_security_token"@);
    lemma_lookup_opt("aws_session_token"@, c.data.aws_session_token, b4, "aws_security_token"@);
    lemma_lookup_opt("aws_session_expiration"@, c.data.aws_session_expiration, b5, "aws_security_token"@);
    lemma_lookup_opt("aws_security_token"@, c.data.aws_security_token, b6, "aws_security_token"@);
    lemma_lookup_opt("region"@, c.data.region, empty, "aws_security_token"@);
    lemma_lookup_opt("aws_access_key_id"@, Some(c.data.aws_access_key_id), b2, "region"@);
    lemma_lookup_opt("aws_secret_access_key"@, Some(c.data.aws_secret_access_key), b3, "region"@);
    lemma_lookup_opt("aws_session_token"@, c.data.aws_session_token, b4, "region"@);
    lemma_lookup_opt("aws_session_expiration"@, c.data.aws_session_expiration, b5, "region"@);
    lemma_lookup_opt("aws_security_token"@, c.data.aws_security_token, b6, "region"@);
    lemma_lookup_opt("region"@, c.data.region, empty, "region"@);
}

/// The config entry of a profile denotes exactly the profile's config
/// side.
proof fn lemma_conf_record_roundtrip(p: MetaV<ProfV>)
    requires
        wf_profile(p),
    ensures
        conf_of_entry(conf_entry_of(p)) == Ok::<MetaV<ConfV>, crate::error::ErrV>(conf_side(p)),
{
    lemma_literals();
    let c = conf_side(p);
    let e = conf_entry_of(p);
    lemma_conf_lookups(c);
    match p.name {
        NameV::Default => {
            assert(e.header == "default"@);
            assert(conf_of_entry(e) == Ok::<MetaV<ConfV>, crate::error::ErrV>(
                crate::aws_profile::conf_meta(NameV::Default, e),
            ));
            assert(crate::aws_profile::conf_meta(NameV::Default, e) =~= c);
        },
        NameV::Named(s) => {
            let h = "profile "@ + s;
            assert(e.header == h);
            assert(h != "default"@) by {
                assert(h.len() >= 8);
                assert("default"@.len() == 7);
            }
            assert forall|j: int| 0 <= j < 7 implies h[j] != ' ' by {
                assert(h[j] == "profile "@[j]);
            }
            assert(h[7] == ' ');
            crate::text::lemma_find_char_is(h, ' ', 7);
            assert(h.contains(' ')) by {
                assert(h[7] == ' ');
            }
            assert(h.take(7) =~= "profile"@);
            assert(h.skip(8) =~= s);
            assert(crate::aws_profile::name_of(s) == NameV::Named(s));
            assert(conf_of_entry(e) == Ok::<MetaV<ConfV>, crate::error::ErrV>(
                crate::aws_profile::conf_meta(NameV::Named(s), e),
            ));
            assert(crate::aws_profile::conf_meta(NameV::Named(s), e) =~= c);
        },
    }
}

/// The credentials entry of a profile denotes exactly the profile's
/// credentials side.
proof fn lemma_cred_record_roundtrip(p: MetaV<ProfV>)
    requires
        wf_profile(p),
    ensures
        cred_of_entry(cred_entry_of(p)) == Ok::<MetaV<CredV>, crate::error::ErrV>(cred_side(p)),
{
    lemma_literals();
    let c = cred_side(p);
    let e = cred_entry_of(p);
    lemma_cred_lookups(c);
    assert(crate::aws_profile::name_of(e.header) == p.name) by {
        match p.name {
            NameV::Default => {
                assert(e.header == "default"@);
            },
            NameV::Named(s) => {
                assert(e.header == s);
                assert(s != "default"@);
            },
        }
    }
    assert(spec_lookup(e.values, "aws_access_key_id"@) is Some);
    assert(spec_lookup(e.values, "aws_secret_access_key"@) is Some);
    let r = cred_of_entry(e)->Ok_0;
    assert(r =~= c);
}

/// Over a whole profile sequence: the recovered config entries denote the
/// config records, in order.
proof fn lemma_records_conf(ps: Seq<MetaV<ProfV>>)
    requires
        all_wf(ps),
    ensures
        confs_of_entries(ps.map_values(|p: MetaV<ProfV>| conf_entry_of(p))) == Ok::<
            Seq<MetaV<ConfV>>,
            crate::error::ErrV,
        >(ps.map_values(|p: MetaV<ProfV>| conf_side(p))),
    decreases ps.len(),
{
    let es = ps.map_values(|p: MetaV<ProfV>| conf_entry_of(p));
    let cs = ps.map_values(|p: MetaV<ProfV>| conf_side(p));
    if ps.len() == 0 {
        assert(es =~= Seq::<EntryV>::empty());
        assert(cs =~= Seq::<MetaV<ConfV>>::empty());
    } else {
        assert(wf_profile(ps[0]));
        lemma_conf_record_roundtrip(ps[0]);
        lemma_all_wf_drop(ps);
        lemma_records_conf(ps.drop_first());
        assert(es[0] == conf_entry_of(ps[0]));
        assert(es.drop_first() =~= ps.drop_first().map_values(
            |p: MetaV<ProfV>| conf_entry_of(p),
        ));
        assert(cs =~= seq![conf_side(ps[0])] + ps.drop_first().map_values(
            |p: MetaV<ProfV>| conf_side(p),
        ));
    }
}

/// Over a whole profile sequence: the recovered credentials entries denote
/// the credentials records, in order.
proof fn lemma_records_cred(ps: Seq<MetaV<ProfV>>)
    requires
        all_wf(ps),
    ensures
        creds_of_entries(ps.map_values(|p: MetaV<ProfV>| cred_entry_of(p))) == Ok::<
            Seq<MetaV<CredV>>,
            crate::error::ErrV,
        >(ps.map_values(|p: MetaV<ProfV>| cred_side(p))),
    decreases ps.len(),
{
    let es = ps.map_values(|p: MetaV<ProfV>| cred_entry_of(p));
    let cs = ps.map_values(|p: MetaV<ProfV>| cred_side(p));
    if ps.len() == 0 {
        assert(es =~= Seq::<EntryV>::empty());
        assert(cs =~= Seq::<MetaV<CredV>>::empty());
    } else {
        assert(wf_profile(ps[0]));
        lemma_cred_record_roundtrip(ps[0]);
        lemma_all_wf_drop(ps);
        lemma_records_cred(ps.drop_first());
        assert(es[0] == cred_entry_of(ps[0]));
        assert(es.drop_first() =~= ps.drop_first().map_values(
            |p: MetaV<ProfV>| cred_entry_of(p),
        ));
        assert(cs =~= seq![cred_side(ps[0])] + ps.drop_first().map_values(
            |p: MetaV<ProfV>| cred_side(p),
        ));
    }
}

// ------------------------------------------------------------------
// The merge reassembles the original profiles
// ------------------------------------------------------------------

/// Deduplication drops a list whose members are all seen.
proof fn lemma_dedup_all_seen(extra: Seq<NameV>, seen: Seq<NameV>)
    requires
        forall|i: int| 0 <= i < extra.len() ==> seen.contains(#[trigger] extra[i]),
    ensures
        crate::aws_profile::dedup(extra, seen) == Seq::<NameV>::empty(),
    decreases extra.len(),
{
    if extra.len() > 0 {
        assert(seen.contains(extra[0]));
        assert forall|i: int| 0 <= i < extra.drop_first().len() implies seen.contains(
            #[trigger] extra.drop_first()[i],
        ) by {
            assert(extra.drop_first()[i] == extra[i + 1]);
        }
        lemma_dedup_all_seen(extra.drop_first(), seen);
    }
}

/// Deduplication of a distinct unseen list followed by already-covered
/// extras keeps exactly the list.
proof fn lemma_dedup_absorb(s: Seq<NameV>, extra: Seq<NameV>, seen: Seq<NameV>)
    requires
        forall|i: int, j: int| 0 <= i < j < s.len() ==> s[i] != s[j],
        forall|i: int| 0 <= i < s.len() ==> !seen.contains(#[trigger] s[i]),
        forall|i: int|
            0 <= i < extra.len() ==> (s.contains(#[trigger] extra[i]) || seen.contains(extra[i])),
    ensures
        crate::aws_profile::dedup(s + extra, seen) == s,
    decreases s.len(),
{
    if s.len() == 0 {
        assert(s + extra =~= extra);
        assert forall|i: int| 0 <= i < extra.len() implies seen.contains(#[trigger] extra[i]) by {
            if s.contains(extra[i]) {
                let w = choose|w: int| 0 <= w < s.len() && s[w] == extra[i];
            }
        }
        lemma_dedup_all_seen(extra, seen);
        assert(crate::aws_profile::dedup(s + extra, seen) =~= s);
    } else {
        let h = s[0];
        let t = s.drop_first();
        let ts = s + extra;
        assert(ts[0] == h);
        assert(!seen.contains(h));
        assert(ts.drop_first() =~= t + extra);
        let seen2 = seen.push(h);
        assert forall|i: int, j: int| 0 <= i < j < t.len() implies t[i] != t[j] by {
            assert(t[i] == s[i + 1]);
            assert(t[j] == s[j + 1]);
        }
        assert forall|i: int| 0 <= i < t.len() implies !seen2.contains(#[trigger] t[i]) by {
            assert(t[i] == s[i + 1]);
            if seen2.contains(t[i]) {
                let w = choose|w: int| 0 <= w < seen2.len() && seen2[w] == t[i];
                if w < seen.len() {
                    assert(seen[w] == t[i]);
                    assert(seen.contains(s[i + 1]));
                } else {
                    assert(t[i] == h);
                    assert(s[i + 1] == s[0]);
                }
            }
        }
        assert forall|i: int|
            0 <= i < extra.len() implies (t.contains(#[trigger] extra[i]) || seen2.contains(
            extra[i],
        )) by {
            if s.contains(extra[i]) {
                let w = choose|w: int| 0 <= w < s.len() && s[w] == extra[i];
                if w == 0 {
                    assert(seen2[seen.len() as int] == h);
                    assert(seen2.contains(extra[i]));
                } else {
                    assert(t[w - 1] == extra[i]);
                    assert(t.contains(extra[i]));
                }
            } else {
                let w = choose|w: int| 0 <= w < seen.len() && seen[w] == extra[i];
                assert(seen2[w] == extra[i]);
                assert(seen2.contains(extra[i]));
            }
        }
        lemma_dedup_absorb(t, extra, seen2);
        assert(crate::aws_profile::dedup(ts, seen) =~= seq![h] + t);
        assert(seq![h] + t =~= s);
    }
}

/// Splitting profiles into their two sides and merging them back gives the
/// profiles, provided their names are distinct.
proof fn lemma_merge_back(ps: Seq<MetaV<ProfV>>)
    requires
        forall|i: int, j: int| 0 <= i < j < ps.len() ==> ps[i].name != ps[j].name,
    ensures
        crate::aws_profile::spec_merge(
            ps.map_values(|p: MetaV<ProfV>| conf_side(p)),
            ps.map_values(|p: MetaV<ProfV>| cred_side(p)),
        ) == Ok::<Seq<MetaV<ProfV>>, crate::error::ErrV>(ps),
{
    let confs = ps.map_values(|p: MetaV<ProfV>| conf_side(p));
    let creds = ps.map_values(|p: MetaV<ProfV>| cred_side(p));
    let names = ps.map_values(|p: MetaV<ProfV>| p.name);
    assert(crate::aws_profile::conf_names(confs) =~= names);
    assert(crate::aws_profile::cred_names(creds) =~= names);
    // the merged name order is exactly the profile order
    assert forall|i: int, j: int| 0 <= i < j < names.len() implies names[i] != names[j] by {
        assert(names[i] == ps[i].name);
        assert(names[j] == ps[j].name);
    }
    assert forall|i: int|
        0 <= i < names.len() implies !Seq::<NameV>::empty().contains(#[trigger] names[i]) by {
        if Seq::<NameV>::empty().contains(names[i]) {
            let w = choose|w: int|
                0 <= w < Seq::<NameV>::empty().len() && Seq::<NameV>::empty()[w] == names[i];
        }
    }
    assert forall|i: int|
        0 <= i < names.len() implies (names.contains(#[trigger] names[i])
            || Seq::<NameV>::empty().contains(names[i])) by {
        assert(names[i] == names[i]);
    }
    lemma_dedup_absorb(names, names, Seq::empty());
    assert(crate::aws_profile::conf_names(confs) + crate::aws_profile::cred_names(creds) =~= names
        + names);
    assert(crate::aws_profile::merged_names(confs, creds) == names);
    // each name finds exactly its own record on both sides
    assert forall|i: int|
        0 <= i < names.len() implies crate::aws_profile::find_last_conf(confs, #[trigger] names[i])
        == Some(confs[i]) && crate::aws_profile::find_last_cred(creds, names[i]) == Some(
        creds[i],
    ) by {
        assert(confs[i].name == names[i]);
        assert(creds[i].name == names[i]);
        assert forall|u: int| i < u < confs.len() implies confs[u].name != names[i] by {
            assert(confs[u].name == ps[u].name);
        }
        crate::aws_profile::lemma_find_last_conf_at(confs, names[i], i);
        assert forall|u: int| i < u < creds.len() implies creds[u].name != names[i] by {
            assert(creds[u].name == ps[u].name);
        }
        crate::aws_profile::lemma_find_last_cred_at(creds, names[i], i);
    }
    crate::aws_profile::lemma_build_profiles(names, confs, creds);
    assert forall|i: int|
        0 <= i < names.len() implies crate::aws_profile::find_last_cred(
        creds,
        #[trigger] names[i],
    ) is Some by {
    }
    let r = crate::aws_profile::build_profiles(names, confs, creds);
    assert(r is Ok);
    assert forall|i: int| 0 <= i < ps.len() implies #[trigger] r->Ok_0[i] == ps[i] by {
        assert(r->Ok_0[i] == crate::aws_profile::mk_profile(
            names[i],
            crate::aws_profile::find_last_conf(confs, names[i]),
            crate::aws_profile::find_last_cred(creds, names[i])->Some_0,
        ));
        assert(crate::aws_profile::mk_profile(names[i], Some(confs[i]), creds[i]) =~= ps[i]);
    }
    assert(r->Ok_0 =~= ps);
}

// ------------------------------------------------------------------
// Everything the parser produces is well-formed
// ------------------------------------------------------------------

pub open spec fn wf_token(t: LineV) -> bool {
    match t {
        LineV::Comment(c) => wf_comment(c),
        LineV::Header(h) => !h.contains('\n'),
        LineV::LockedHeader(h) => !h.contains('\n'),
        LineV::KeyValue(k, v) => wf_value(v),
        LineV::LockedKeyValue(k, v) => wf_value(v),
        _ => true,
    }
}

pub open spec fn wf_tokens(ts: Seq<LineV>) -> bool {
    forall|i: int| 0 <= i < ts.len() ==> wf_token(#[trigger] ts[i])
}

pub open spec fn wf_entry(e: EntryV) -> bool {
    &&& wf_comments(e.comments)
    &&& !e.header.contains('\n')
    &&& forall|i: int| 0 <= i < e.values.len() ==> wf_value((#[trigger] e.values[i]).1)
}

pub open spec fn wf_entries(es: Seq<EntryV>) -> bool {
    forall|i: int| 0 <= i < es.len() ==> wf_entry(#[trigger] es[i])
}

/// The token of a newline-free line is well-formed.
proof fn lemma_tokenize_line_wf(l: Seq<char>)
    requires
        !l.contains('\n'),
        tokenize_line(l) is Some,
    ensures
        wf_token(tokenize_line(l)->Some_0),
{
    crate::text::lemma_trim_keeps_absent(l, '\n');
    let trimmed = spec_trim(l);
    if is_commented(l) {
        let dropped = trimmed.drop_first();
        assert(dropped =~= trimmed.subrange(1, trimmed.len() as int));
        crate::text::lemma_subrange_keeps_absent(trimmed, '\n', 1, trimmed.len() as int);
        let inner = commented_inner(l);
        crate::text::lemma_trim_keeps_absent(dropped, '\n');
        lemma_trim_stable(dropped);
        match classify_commented(l) {
            LineV::ProductionMarker => {},
            LineV::LockedHeader(h) => {
                crate::text::lemma_subrange_keeps_absent(inner, '\n', 1, inner.len() - 1);
            },
            LineV::LockedKeyValue(k, v) => {
                let i = find_char(inner, '=');
                lemma_find_char(inner, '=');
                assert(inner.skip(i + 1) =~= inner.subrange(i + 1, inner.len() as int));
                crate::text::lemma_subrange_keeps_absent(inner, '\n', i + 1, inner.len() as int);
                crate::text::lemma_trim_keeps_absent(inner.skip(i + 1), '\n');
                lemma_trim_stable(inner.skip(i + 1));
            },
            LineV::Comment(c) => {
                assert(c == inner);
            },
            _ => {},
        }
    } else {
        match classify_uncommented(l) {
            Some(t) => match t {
                LineV::Header(h) => {
                    crate::text::lemma_subrange_keeps_absent(l, '\n', 1, l.len() - 1);
                },
                LineV::KeyValue(k, v) => {
                    let i = find_char(l, '=');
                    lemma_find_char(l, '=');
                    assert(l.skip(i + 1) =~= l.subrange(i + 1, l.len() as int));
                    crate::text::lemma_subrange_keeps_absent(l, '\n', i + 1, l.len() as int);
                    crate::text::lemma_trim_keeps_absent(l.skip(i + 1), '\n');
                    lemma_trim_stable(l.skip(i + 1));
                },
                _ => {},
            },
            None => {},
        }
    }
}

/// All tokens of a newline-free line sequence are well-formed.
proof fn lemma_tokens_wf(lines: Seq<Seq<char>>)
    requires
        forall|i: int| 0 <= i < lines.len() ==> !(#[trigger] lines[i]).contains('\n'),
        spec_tokenize(lines) is Ok,
    ensures
        wf_tokens(spec_tokenize(lines)->Ok_0),
    decreases lines.len(),
{
    if lines.len() > 0 {
        lemma_tokenize_line_wf(lines[0]);
        assert forall|i: int|
            0 <= i < lines.drop_first().len() implies !(#[trigger] lines.drop_first()[i]).contains(
            '\n',
        ) by {
            assert(lines.drop_first()[i] == lines[i + 1]);
        }
        lemma_tokens_wf(lines.drop_first());
        let t = tokenize_line(lines[0])->Some_0;
        let ts = spec_tokenize(lines.drop_first())->Ok_0;
        assert forall|i: int|
            0 <= i < spec_tokenize(lines)->Ok_0.len() implies wf_token(
            #[trigger] spec_tokenize(lines)->Ok_0[i],
        ) by {
            assert(spec_tokenize(lines)->Ok_0 == seq![t] + ts);
            if i > 0 {
                assert((seq![t] + ts)[i] == ts[i - 1]);
            }
        }
    }
}

proof fn lemma_wf_tokens_drop(ts: Seq<LineV>)
    requires
        wf_tokens(ts),
        ts.len() > 0,
    ensures
        wf_tokens(ts.drop_first()),
{
    assert forall|i: int| 0 <= i < ts.drop_first().len() implies wf_token(
        #[trigger] ts.drop_first()[i],
    ) by {
        assert(ts.drop_first()[i] == ts[i + 1]);
    }
}

/// The production scan yields well-formed comments and a well-formed rest.
proof fn lemma_p_production_wf(ts: Seq<LineV>)
    requires
        wf_tokens(ts),
    ensures
        p_production(ts) matches Ok((cs, b, rest)) ==> (wf_comments(cs) && wf_tokens(rest)),
    decreases ts.len(),
{
    if ts.len() > 0 {
        lemma_wf_tokens_drop(ts);
        lemma_p_production_wf(ts.drop_first());
        match ts[0] {
            LineV::Comment(c) => {
                assert(wf_token(ts[0]));
                if let Ok((cs2, b, rest)) = p_production(ts.drop_first()) {
                    assert forall|i: int|
                        0 <= i < (seq![c] + cs2).len() implies wf_comment(
                        #[trigger] (seq![c] + cs2)[i],
                    ) by {
                        if i > 0 {
                            assert((seq![c] + cs2)[i] == cs2[i - 1]);
                        }
                    }
                }
            },
            _ => {},
        }
    }
}

/// The locked-ness peek yields well-formed comments and a well-formed
/// rest.
proof fn lemma_p_locked_wf(ts: Seq<LineV>)
    requires
        wf_tokens(ts),
    ensures
        p_locked(ts) matches Ok((cs, b, rest)) ==> (wf_comments(cs) && wf_tokens(rest)),
    decreases ts.len(),
{
    if ts.len() > 0 {
        lemma_wf_tokens_drop(ts);
        lemma_p_locked_wf(ts.drop_first());
        match ts[0] {
            LineV::Comment(c) => {
                assert(wf_token(ts[0]));
                if let Ok((cs2, b, rest)) = p_locked(ts.drop_first()) {
                    assert forall|i: int|
                        0 <= i < (seq![c] + cs2).len() implies wf_comment(
                        #[trigger] (seq![c] + cs2)[i],
                    ) by {
                        if i > 0 {
                            assert((seq![c] + cs2)[i] == cs2[i - 1]);
                        }
                    }
                }
            },
            _ => {},
        }
    }
}

/// The header phase yields a newline-free header and a well-formed rest.
proof fn lemma_p_header_wf(ts: Seq<LineV>, locked: bool)
    requires
        wf_tokens(ts),
    ensures
        p_header(ts, locked) matches Ok((cs, h, rest)) ==> (wf_comments(cs) && !h.contains('\n')
            && wf_tokens(rest)),
    decreases ts.len(),
{
    if ts.len() > 0 {
        lemma_wf_tokens_drop(ts);
        lemma_p_header_wf(ts.drop_first(), locked);
        match ts[0] {
            LineV::Comment(c) => {
                assert(wf_token(ts[0]));
                if let Ok((cs2, h, rest)) = p_header(ts.drop_first(), locked) {
                    assert forall|i: int|
                        0 <= i < (seq![c] + cs2).len() implies wf_comment(
                        #[trigger] (seq![c] + cs2)[i],
                    ) by {
                        if i > 0 {
                            assert((seq![c] + cs2)[i] == cs2[i - 1]);
                        }
                    }
                }
            },
            LineV::Header(h) => {
                assert(wf_token(ts[0]));
            },
            LineV::LockedHeader(h) => {
                assert(wf_token(ts[0]));
            },
            _ => {},
        }
    }
}

/// Inserting a well-formed value keeps every stored value well-formed.
proof fn lemma_vals_insert_wf(
    acc: Seq<(Seq<char>, Seq<char>)>,
    k: Seq<char>,
    v: Seq<char>,
)
    requires
        forall|i: int| 0 <= i < acc.len() ==> wf_value((#[trigger] acc[i]).1),
        wf_value(v),
    ensures
        forall|i: int|
            0 <= i < vals_insert(acc, k, v).len() ==> wf_value(
                (#[trigger] vals_insert(acc, k, v)[i]).1,
            ),
    decreases acc.len(),
{
    let r = vals_insert(acc, k, v);
    if acc.len() == 0 {
        assert(r[0] == (k, v));
    } else if acc[0].0 == k {
        assert forall|i: int| 0 <= i < r.len() implies wf_value((#[trigger] r[i]).1) by {
            if i > 0 {
                assert(r[i] == acc.drop_first()[i - 1]);
                assert(acc.drop_first()[i - 1] == acc[i]);
            } else {
                assert(r[0] == (k, v));
            }
        }
    } else {
        assert forall|i: int| 0 <= i < acc.drop_first().len() implies wf_value(
            (#[trigger] acc.drop_first()[i]).1,
        ) by {
            assert(acc.drop_first()[i] == acc[i + 1]);
        }
        lemma_vals_insert_wf(acc.drop_first(), k, v);
        assert forall|i: int| 0 <= i < r.len() implies wf_value((#[trigger] r[i]).1) by {
            if i > 0 {
                assert(r[i] == vals_insert(acc.drop_first(), k, v)[i - 1]);
            } else {
                assert(r[0] == acc[0]);
            }
        }
    }
}

/// The value phase yields well-formed values and a well-formed rest.
proof fn lemma_p_values_wf(ts: Seq<LineV>, locked: bool, acc: Seq<(Seq<char>, Seq<char>)>)
    requires
        wf_tokens(ts),
        forall|i: int| 0 <= i < acc.len() ==> wf_value((#[trigger] acc[i]).1),
    ensures
        p_values(ts, locked, acc) matches Ok((vals, rest)) ==> ((forall|i: int|
            0 <= i < vals.len() ==> wf_value((#[trigger] vals[i]).1)) && wf_tokens(rest)),
    decreases ts.len(),
{
    if ts.len() > 0 {
        lemma_wf_tokens_drop(ts);
        match ts[0] {
            LineV::Empty => {
                lemma_p_values_wf(ts.drop_first(), locked, acc);
            },
            LineV::KeyValue(k, v) => {
                if !locked {
                    assert(wf_token(ts[0]));
                    lemma_vals_insert_wf(acc, k, v);
                    lemma_p_values_wf(ts.drop_first(), locked, vals_insert(acc, k, v));
                }
            },
            LineV::LockedKeyValue(k, v) => {
                if locked {
                    assert(wf_token(ts[0]));
                    lemma_vals_insert_wf(acc, k, v);
                    lemma_p_values_wf(ts.drop_first(), locked, vals_insert(acc, k, v));
                }
            },
            _ => {},
        }
    }
}

proof fn lemma_skip_empties_wf(ts: Seq<LineV>)
    requires
        wf_tokens(ts),
    ensures
        wf_tokens(skip_empties(ts)),
    decreases ts.len(),
{
    if ts.len() > 0 && ts[0] is Empty {
        lemma_wf_tokens_drop(ts);
        lemma_skip_empties_wf(ts.drop_first());
    }
}

/// One parsed entry of a well-formed token stream is well-formed, and so
/// is the remaining stream.
proof fn lemma_parse_one_wf(ts: Seq<LineV>)
    requires
        wf_tokens(ts),
    ensures
        spec_parse_one(ts) matches Ok(Some((e, rest))) ==> (wf_entry(e) && wf_tokens(rest)),
{
    lemma_skip_empties_wf(ts);
    let ts0 = skip_empties(ts);
    if ts0.len() > 0 {
        lemma_p_production_wf(ts0);
        if let Ok((c1, prod, ts1)) = p_production(ts0) {
            lemma_p_locked_wf(ts1);
            if let Ok((c2, locked, ts2)) = p_locked(ts1) {
                lemma_p_header_wf(ts2, locked);
                if let Ok((c3, h, ts3)) = p_header(ts2, locked) {
                    lemma_p_values_wf(ts3, locked, Seq::empty());
                    if let Ok((vals, ts4)) = p_values(ts3, locked, Seq::empty()) {
                        let cs = c1 + c2 + c3;
                        assert forall|i: int| 0 <= i < cs.len() implies wf_comment(
                            #[trigger] cs[i],
                        ) by {
                            if i < c1.len() {
                                assert(cs[i] == c1[i]);
                            } else if i < c1.len() + c2.len() {
                                assert(cs[i] == c2[i - c1.len()]);
                            } else {
                                assert(cs[i] == c3[i - c1.len() - c2.len()]);
                            }
                        }
                    }
                }
            }
        }
    }
}

/// Every parsed entry of a well-formed token stream is well-formed.
proof fn lemma_parse_wf(ts: Seq<LineV>)
    requires
        wf_tokens(ts),
    ensures
        spec_parse(ts) matches Ok(es) ==> wf_entries(es),
    decreases ts.len(),
{
    lemma_parse_one_wf(ts);
    crate::line_parser::lemma_parse_one_shrinks(ts);
    match spec_parse_one(ts) {
        Ok(Some((e, rest))) => {
            lemma_parse_wf(rest);
            if let Ok(es2) = spec_parse(rest) {
                let es = seq![e] + es2;
                assert forall|i: int| 0 <= i < es.len() implies wf_entry(#[trigger] es[i]) by {
                    if i > 0 {
                        assert(es[i] == es2[i - 1]);
                    }
                }
            }
        },
        _ => {},
    }
}

/// A found value of a well-formed value list is well-formed.
proof fn lemma_lookup_wf(vs: Seq<(Seq<char>, Seq<char>)>, k: Seq<char>)
    requires
        forall|i: int| 0 <= i < vs.len() ==> wf_value((#[trigger] vs[i]).1),
    ensures
        spec_lookup(vs, k) matches Some(x) ==> wf_value(x),
    decreases vs.len(),
{
    if vs.len() > 0 && vs[0].0 != k {
        assert forall|i: int| 0 <= i < vs.drop_first().len() implies wf_value(
            (#[trigger] vs.drop_first()[i]).1,
        ) by {
            assert(vs.drop_first()[i] == vs[i + 1]);
        }
        lemma_lookup_wf(vs.drop_first(), k);
    }
}

/// A config record from a well-formed entry is well-formed.
proof fn lemma_conf_record_wf(e: EntryV)
    requires
        wf_entry(e),
    ensures
        conf_of_entry(e) matches Ok(c) ==> wf_conf(c),
{
    lemma_lookup_wf(e.values, "region"@);
    lemma_lookup_wf(e.values, "output"@);
    if let Ok(c) = conf_of_entry(e) {
        if e.header == "default"@ {
        } else {
            let i = find_char(e.header, ' ');
            let s = e.header.skip(i + 1);
            lemma_find_char(e.header, ' ');
            assert(s =~= e.header.subrange(i + 1, e.header.len() as int));
            crate::text::lemma_subrange_keeps_absent(e.header, '\n', i + 1, e.header.len() as int);
            assert(wf_name(crate::aws_profile::name_of(s)));
        }
    }
}

/// A credentials record from a well-formed entry is well-formed.
proof fn lemma_cred_record_wf(e: EntryV)
    requires
        wf_entry(e),
    ensures
        cred_of_entry(e) matches Ok(c) ==> wf_cred(c),
{
    lemma_lookup_wf(e.values, "aws_access_key_id"@);
    lemma_lookup_wf(e.values, "aws_secret_access_key"@);
    lemma_lookup_wf(e.values, "aws_session_token"@);
    lemma_lookup_wf(e.values, "aws_session_expiration"@);
    lemma_lookup_wf(e.values, "aws_security_token"@);
    lemma_lookup_wf(e.values, "region"@);
    assert(wf_name(crate::aws_profile::name_of(e.header)));
}

pub open spec fn wf_confs(cs: Seq<MetaV<ConfV>>) -> bool {
    forall|i: int| 0 <= i < cs.len() ==> wf_conf(#[trigger] cs[i])
}

pub open spec fn wf_creds(cs: Seq<MetaV<CredV>>) -> bool {
    forall|i: int| 0 <= i < cs.len() ==> wf_cred(#[trigger] cs[i])
}

proof fn lemma_confs_wf(es: Seq<EntryV>)
    requires
        wf_entries(es),
    ensures
        confs_of_entries(es) matches Ok(cs) ==> wf_confs(cs),
    decreases es.len(),
{
    if es.len() > 0 {
        lemma_conf_record_wf(es[0]);
        assert forall|i: int| 0 <= i < es.drop_first().len() implies wf_entry(
            #[trigger] es.drop_first()[i],
        ) by {
            assert(es.drop_first()[i] == es[i + 1]);
        }
        lemma_confs_wf(es.drop_first());
        if let Ok(c0) = conf_of_entry(es[0]) {
            if let Ok(cs2) = confs_of_entries(es.drop_first()) {
                let cs = seq![c0] + cs2;
                assert forall|i: int| 0 <= i < cs.len() implies wf_conf(#[trigger] cs[i]) by {
                    if i > 0 {
                        assert(cs[i] == cs2[i - 1]);
                    }
                }
            }
        }
    }
}

proof fn lemma_creds_wf(es: Seq<EntryV>)
    requires
        wf_entries(es),
    ensures
        creds_of_entries(es) matches Ok(cs) ==> wf_creds(cs),
    decreases es.len(),
{
    if es.len() > 0 {
        lemma_cred_record_wf(es[0]);
        assert forall|i: int| 0 <= i < es.drop_first().len() implies wf_entry(
            #[trigger] es.drop_first()[i],
        ) by {
            assert(es.drop_first()[i] == es[i + 1]);
        }
        lemma_creds_wf(es.drop_first());
        if let Ok(c0) = cred_of_entry(es[0]) {
            if let Ok(cs2) = creds_of_entries(es.drop_first()) {
                let cs = seq![c0] + cs2;
                assert forall|i: int| 0 <= i < cs.len() implies wf_cred(#[trigger] cs[i]) by {
                    if i > 0 {
                        assert(cs[i] == cs2[i - 1]);
                    }
                }
            }
        }
    }
}

/// A found record is a member of the searched list.
proof fn lemma_find_last_conf_member(cs: Seq<MetaV<ConfV>>, n: NameV)
    ensures
        crate::aws_profile::find_last_conf(cs, n) matches Some(x) ==> cs.contains(x),
    decreases cs.len(),
{
    if cs.len() > 0 {
        if cs.last().name == n {
            assert(cs[cs.len() - 1] == cs.last());
        } else {
            lemma_find_last_conf_member(cs.drop_last(), n);
            if let Some(x) = crate::aws_profile::find_last_conf(cs.drop_last(), n) {
                let w = choose|w: int| 0 <= w < cs.drop_last().len() && cs.drop_last()[w] == x;
                assert(cs[w] == x);
            }
        }
    }
}

proof fn lemma_find_last_cred_member(cs: Seq<MetaV<CredV>>, n: NameV)
    ensures
        crate::aws_profile::find_last_cred(cs, n) matches Some(x) ==> cs.contains(x),
    decreases cs.len(),
{
    if cs.len() > 0 {
        if cs.last().name == n {
            assert(cs[cs.len() - 1] == cs.last());
        } else {
            lemma_find_last_cred_member(cs.drop_last(), n);
            if let Some(x) = crate::aws_profile::find_last_cred(cs.drop_last(), n) {
                let w = choose|w: int| 0 <= w < cs.drop_last().len() && cs.drop_last()[w] == x;
                assert(cs[w] == x);
            }
        }
    }
}

/// Deduplication yields pairwise distinct names.
proof fn lemma_dedup_distinct(ns: Seq<NameV>, seen: Seq<NameV>)
    ensures
        forall|i: int, j: int|
            0 <= i < j < crate::aws_profile::dedup(ns, seen).len() ==> crate::aws_profile::dedup(
                ns,
                seen,
            )[i] != crate::aws_profile::dedup(ns, seen)[j],
        forall|i: int|
            0 <= i < crate::aws_profile::dedup(ns, seen).len() ==> !seen.contains(
                #[trigger] crate::aws_profile::dedup(ns, seen)[i],
            ),
    decreases ns.len(),
{
    if ns.len() == 0 {
        assert(crate::aws_profile::dedup(ns, seen).len() == 0);
    } else {
        let h = ns[0];
        let t = ns.drop_first();
        if seen.contains(h) {
            lemma_dedup_distinct(t, seen);
            let d = crate::aws_profile::dedup(ns, seen);
            let dt = crate::aws_profile::dedup(t, seen);
            assert(d == dt);
            assert forall|i: int, j: int| 0 <= i < j < d.len() implies d[i] != d[j] by {
                assert(d[i] == dt[i]);
                assert(d[j] == dt[j]);
            }
            assert forall|i: int| 0 <= i < d.len() implies !seen.contains(#[trigger] d[i]) by {
                assert(d[i] == dt[i]);
            }
        } else {
            lemma_dedup_distinct(t, seen.push(h));
            let d = crate::aws_profile::dedup(ns, seen);
            let dt = crate::aws_profile::dedup(t, seen.push(h));
            assert(d == seq![h] + dt);
            assert forall|i: int, j: int| 0 <= i < j < d.len() implies d[i] != d[j] by {
                if i == 0 {
                    assert(d[j] == dt[j - 1]);
                    assert(!seen.push(h).contains(dt[j - 1]));
                    if d[j] == h {
                        assert(seen.push(h)[seen.len() as int] == h);
                        assert(seen.push(h).contains(dt[j - 1]));
                    }
                } else {
                    assert(d[i] == dt[i - 1]);
                    assert(d[j] == dt[j - 1]);
                }
            }
            assert forall|i: int| 0 <= i < d.len() implies !seen.contains(#[trigger] d[i]) by {
                if i > 0 {
                    assert(d[i] == dt[i - 1]);
                    assert(!seen.push(h).contains(dt[i - 1]));
                    if seen.contains(d[i]) {
                        let w = choose|w: int| 0 <= w < seen.len() && seen[w] == d[i];
                        assert(seen.push(h)[w] == d[i]);
                        assert(seen.push(h).contains(dt[i - 1]));
                    }
                }
            }
        }
    }
}

/// Merged profiles of well-formed records are well-formed and carry
/// pairwise distinct names.
proof fn lemma_merge_wf(confs: Seq<MetaV<ConfV>>, creds: Seq<MetaV<CredV>>)
    requires
        wf_confs(confs),
        wf_creds(creds),
    ensures
        crate::aws_profile::spec_merge(confs, creds) matches Ok(ps) ==> (all_wf(ps) && forall|
            i: int,
            j: int,
        |
            0 <= i < j < ps.len() ==> ps[i].name != ps[j].name),
{
    let names = crate::aws_profile::merged_names(confs, creds);
    crate::aws_profile::lemma_build_profiles(names, confs, creds);
    lemma_dedup_distinct(crate::aws_profile::conf_names(confs) + crate::aws_profile::cred_names(
        creds,
    ), Seq::empty());
    crate::aws_profile::lemma_dedup_membership(
        crate::aws_profile::conf_names(confs) + crate::aws_profile::cred_names(creds),
        Seq::empty(),
    );
    if let Ok(ps) = crate::aws_profile::spec_merge(confs, creds) {
        assert forall|i: int, j: int| 0 <= i < j < ps.len() implies ps[i].name != ps[j].name by {
            assert(ps[i] == crate::aws_profile::mk_profile(
                names[i],
                crate::aws_profile::find_last_conf(confs, names[i]),
                crate::aws_profile::find_last_cred(creds, names[i])->Some_0,
            ));
            assert(ps[j] == crate::aws_profile::mk_profile(
                names[j],
                crate::aws_profile::find_last_conf(confs, names[j]),
                crate::aws_profile::find_last_cred(creds, names[j])->Some_0,
            ));
        }
        assert forall|i: int| 0 <= i < ps.len() implies wf_profile(#[trigger] ps[i]) by {
            let n = names[i];
            assert(ps[i] == crate::aws_profile::mk_profile(
                n,
                crate::aws_profile::find_last_conf(confs, n),
                crate::aws_profile::find_last_cred(creds, n)->Some_0,
            ));
            // the name is a record's name, hence well-formed
            assert(wf_name(n)) by {
                assert(names.contains(names[i]));
                let all = crate::aws_profile::conf_names(confs)
                    + crate::aws_profile::cred_names(creds);
                assert(all.contains(n));
                let w = choose|w: int| 0 <= w < all.len() && all[w] == n;
                if w < confs.len() {
                    assert(all[w] == confs[w].name);
                    assert(wf_conf(confs[w]));
                } else {
                    assert(all[w] == creds[w - confs.len()].name);
                    assert(wf_cred(creds[w - confs.len()]));
                }
            }
            lemma_find_last_cred_member(creds, n);
            let cr = crate::aws_profile::find_last_cred(creds, n)->Some_0;
            assert(wf_cred(cr)) by {
                let w = choose|w: int| 0 <= w < creds.len() && creds[w] == cr;
            }
            match crate::aws_profile::find_last_conf(confs, n) {
                Some(cf) => {
                    lemma_find_last_conf_member(confs, n);
                    assert(wf_conf(cf)) by {
                        let w = choose|w: int| 0 <= w < confs.len() && confs[w] == cf;
                    }
                },
                None => {
                    assert(wf_comments(empty_conf().comments)) by {
                        assert(empty_conf().comments.len() == 0);
                    }
                },
            }
        }
    }
}

/// Everything the store parser yields is well-formed, with pairwise
/// distinct profile names.
pub proof fn lemma_parse_profiles_wf(conf_text: Seq<char>, cred_text: Seq<char>)
    ensures
        crate::aws_profile::spec_parse_profiles(conf_text, cred_text) matches Ok(ps) ==> (all_wf(
            ps,
        ) && forall|i: int, j: int| 0 <= i < j < ps.len() ==> ps[i].name != ps[j].name),
{
    crate::text::lemma_lines_no_newline(conf_text);
    crate::text::lemma_lines_no_newline(cred_text);
    if let Ok(toks1) = spec_tokenize(crate::text::spec_lines(conf_text)) {
        lemma_tokens_wf(crate::text::spec_lines(conf_text));
        lemma_parse_wf(toks1);
        if let Ok(es1) = spec_parse(toks1) {
            lemma_confs_wf(es1);
        }
    }
    if let Ok(toks2) = spec_tokenize(crate::text::spec_lines(cred_text)) {
        lemma_tokens_wf(crate::text::spec_lines(cred_text));
        lemma_parse_wf(toks2);
        if let Ok(es2) = spec_parse(toks2) {
            lemma_creds_wf(es2);
        }
    }
    if let Ok(confs) = crate::aws_profile::spec_parse_config(conf_text) {
        if let Ok(creds) = crate::aws_profile::spec_parse_credentials(cred_text) {
            lemma_merge_wf(confs, creds);
        }
    }
}

// ------------------------------------------------------------------
// The written lines are clean enough to split back apart
// ------------------------------------------------------------------

/// A line the serializer may emit: no newline inside, no carriage return
/// at the end.
pub open spec fn line_ok(l: Seq<char>) -> bool {
    !l.contains('\n') && (l.len() > 0 ==> l.last() != '\r')
}

pub open spec fn lines_ok(ls: Seq<Seq<char>>) -> bool {
    forall|i: int| 0 <= i < ls.len() ==> line_ok(#[trigger] ls[i])
}

proof fn lemma_concat_keeps_absent(a: Seq<char>, b: Seq<char>, c: char)
    requires
        !a.contains(c),
        !b.contains(c),
    ensures
        !(a + b).contains(c),
{
    if (a + b).contains(c) {
        let w = choose|w: int| 0 <= w < (a + b).len() && (a + b)[w] == c;
        if w < a.len() {
            assert(a[w] == c);
        } else {
            assert(b[w - a.len()] == c);
        }
    }
}

proof fn lemma_lines_ok_concat(a: Seq<Seq<char>>, b: Seq<Seq<char>>)
    requires
        lines_ok(a),
        lines_ok(b),
    ensures
        lines_ok(a + b),
{
    assert forall|i: int| 0 <= i < (a + b).len() implies line_ok(#[trigger] (a + b)[i]) by {
        if i < a.len() {
            assert((a + b)[i] == a[i]);
        } else {
            assert((a + b)[i] == b[i - a.len()]);
        }
    }
}

proof fn lemma_text_literals_clean()
    ensures
        !"# "@.contains('\n'),
        !"# production"@.contains('\n'),
        !" = "@.contains('\n'),
        !"default"@.contains('\n'),
        !"profile "@.contains('\n'),
        !"["@.contains('\n'),
        !"]"@.contains('\n'),
{
    lemma_literals();
    lemma_no_char_in("# "@, '\n');
    lemma_no_char_in("# production"@, '\n');
    lemma_no_char_in(" = "@, '\n');
    lemma_no_char_in("default"@, '\n');
    lemma_no_char_in("profile"@, '\n');
    lemma_concat_keeps_absent("profile"@, seq![' '], '\n');
    lemma_no_char_in("["@, '\n');
    lemma_no_char_in("]"@, '\n');
}

proof fn lemma_comment_lines_ok(cs: Seq<Seq<char>>)
    requires
        wf_comments(cs),
    ensures
        lines_ok(comment_lines(cs)),
{
    lemma_literals();
    lemma_text_literals_clean();
    assert forall|i: int| 0 <= i < comment_lines(cs).len() implies line_ok(
        #[trigger] comment_lines(cs)[i],
    ) by {
        let c = cs[i];
        let l = "# "@ + c;
        assert(comment_lines(cs)[i] == l);
        assert(wf_comment(c));
        lemma_concat_keeps_absent("# "@, c, '\n');
        if c.len() > 0 {
            assert(l.last() == c.last());
            crate::text::lemma_trim_no_edge_space(c);
            assert(!is_space(c.last()));
        } else {
            assert(l =~= "# "@);
            assert(l.last() == ' ');
        }
    }
}

proof fn lemma_production_lines_ok(p: bool)
    ensures
        lines_ok(production_lines(p)),
{
    lemma_literals();
    lemma_text_literals_clean();
    if p {
        assert forall|i: int| 0 <= i < production_lines(p).len() implies line_ok(
            #[trigger] production_lines(p)[i],
        ) by {
            assert(production_lines(p)[i] == "# production"@);
            assert("# production"@.last() == 'n');
        }
    }
}

proof fn lemma_value_lines_ok(k: Seq<char>, v: Option<Seq<char>>, locked: bool)
    requires
        key_ok(k),
        wf_opt(v),
    ensures
        lines_ok(opt_value_lines(lock_prefix(locked), k, v)),
{
    lemma_literals();
    lemma_text_literals_clean();
    match v {
        None => {},
        Some(x) => {
            let l = value_line(lock_prefix(locked), k, x);
            assert(!lock_prefix(locked).contains('\n')) by {
                if !locked {
                    lemma_no_char_in(lock_prefix(locked), '\n');
                }
            }
            lemma_concat_keeps_absent(lock_prefix(locked), k, '\n');
            lemma_concat_keeps_absent(lock_prefix(locked) + k, " = "@, '\n');
            lemma_concat_keeps_absent(lock_prefix(locked) + k + " = "@, x, '\n');
            assert(l.len() > 0);
            if x.len() > 0 {
                assert(l.last() == x.last());
                crate::text::lemma_trim_no_edge_space(x);
                assert(!is_space(x.last()));
            } else {
                assert(l.last() == (lock_prefix(locked) + k + " = "@).last());
                assert((lock_prefix(locked) + k + " = "@).last() == " = "@.last());
                assert(" = "@.last() == ' ');
            }
            assert forall|i: int| 0 <= i < opt_value_lines(lock_prefix(locked), k, v).len()
                implies line_ok(#[trigger] opt_value_lines(lock_prefix(locked), k, v)[i]) by {
                assert(opt_value_lines(lock_prefix(locked), k, v)[i] == l);
            }
        },
    }
}

proof fn lemma_conf_header_lines_ok(n: NameV, locked: bool)
    requires
        wf_name(n),
    ensures
        lines_ok(seq![conf_header_line(n, locked)]),
{
    lemma_literals();
    lemma_text_literals_clean();
    let body = match n {
        NameV::Default => "[default]"@,
        NameV::Named(s) => "[profile "@ + s + "]"@,
    };
    let l = conf_header_line(n, locked);
    assert(!body.contains('\n')) by {
        match n {
            NameV::Default => {
                lemma_concat_keeps_absent("["@, "default"@, '\n');
                lemma_concat_keeps_absent("["@ + "default"@, "]"@, '\n');
                assert(body =~= "["@ + "default"@ + "]"@);
            },
            NameV::Named(s) => {
                assert(!s.contains('\n'));
                assert(!"[profile "@.contains('\n')) by {
                    lemma_concat_keeps_absent("["@, "profile "@, '\n');
                    assert("[profile "@ =~= "["@ + "profile "@);
                }
                lemma_concat_keeps_absent("[profile "@, s, '\n');
                lemma_concat_keeps_absent("[profile "@ + s, "]"@, '\n');
            },
        }
    }
    assert(!lock_prefix(locked).contains('\n')) by {
        if !locked {
            lemma_no_char_in(lock_prefix(locked), '\n');
        }
    }
    lemma_concat_keeps_absent(lock_prefix(locked), body, '\n');
    assert(body.last() == ']') by {
        match n {
            NameV::Default => {
                assert(body =~= "["@ + "default"@ + "]"@);
            },
            NameV::Named(s) => {},
        }
    }
    assert(body.len() > 0);
    assert(l.last() == ']');
    assert forall|i: int| 0 <= i < seq![l].len() implies line_ok(#[trigger] seq![l][i]) by {
        assert(seq![l][i] == l);
    }
}

proof fn lemma_cred_header_lines_ok(n: NameV, locked: bool)
    requires
        wf_name(n),
    ensures
        lines_ok(seq![cred_header_line(n, locked)]),
{
    lemma_literals();
    lemma_text_literals_clean();
    let l = cred_header_line(n, locked);
    assert(!name_text(n).contains('\n')) by {
        match n {
            NameV::Default => {},
            NameV::Named(s) => {},
        }
    }
    assert(!lock_prefix(locked).contains('\n')) by {
        if !locked {
            lemma_no_char_in(lock_prefix(locked), '\n');
        }
    }
    lemma_concat_keeps_absent(lock_prefix(locked), "["@, '\n');
    lemma_concat_keeps_absent(lock_prefix(locked) + "["@, name_text(n), '\n');
    lemma_concat_keeps_absent(lock_prefix(locked) + "["@ + name_text(n), "]"@, '\n');
    assert(l.last() == ']');
    assert forall|i: int| 0 <= i < seq![l].len() implies line_ok(#[trigger] seq![l][i]) by {
        assert(seq![l][i] == l);
    }
}

proof fn lemma_conf_entry_lines_ok(c: MetaV<ConfV>)
    requires
        wf_conf(c),
    ensures
        lines_ok(conf_entry_lines(c)),
{
    lemma_cred_keys();
    lemma_comment_lines_ok(c.data.comments);
    lemma_production_lines_ok(c.is_production);
    lemma_conf_header_lines_ok(c.name, c.is_locked);
    lemma_value_lines_ok("region"@, c.data.region, c.is_locked);
    lemma_value_lines_ok("output"@, c.data.output, c.is_locked);
    lemma_lines_ok_concat(comment_lines(c.data.comments), production_lines(c.is_production));
    lemma_lines_ok_concat(
        comment_lines(c.data.comments) + production_lines(c.is_production),
        seq![conf_header_line(c.name, c.is_locked)],
    );
    lemma_lines_ok_concat(
        comment_lines(c.data.comments) + production_lines(c.is_production) + seq![
            conf_header_line(c.name, c.is_locked),
        ],
        opt_value_lines(lock_prefix(c.is_locked), "region"@, c.data.region),
    );
    lemma_lines_ok_concat(
        comment_lines(c.data.comments) + production_lines(c.is_production) + seq![
            conf_header_line(c.name, c.is_locked),
        ] + opt_value_lines(lock_prefix(c.is_locked), "region"@, c.data.region),
        opt_value_lines(lock_prefix(c.is_locked), "output"@, c.data.output),
    );
}

proof fn lemma_cred_entry_lines_ok(c: MetaV<CredV>)
    requires
        wf_cred(c),
    ensures
        lines_ok(cred_entry_lines(c)),
{
    lemma_cred_keys();
    let pfx = lock_prefix(c.is_locked);
    lemma_comment_lines_ok(c.data.comments);
    lemma_production_lines_ok(c.is_production);
    lemma_cred_header_lines_ok(c.name, c.is_locked);
    lemma_value_lines_ok("aws_access_key_id"@, Some(c.data.aws_access_key_id), c.is_locked);
    lemma_value_lines_ok(
        "aws_secret_access_key"@,
        Some(c.data.aws_secret_access_key),
        c.is_locked,
    );
    lemma_value_lines_ok("aws_session_token"@, c.data.aws_session_token, c.is_locked);
    lemma_value_lines_ok("aws_session_expiration"@, c.data.aws_session_expiration, c.is_locked);
    lemma_value_lines_ok("aws_security_token"@, c.data.aws_security_token, c.is_locked);
    lemma_value_lines_ok("region"@, c.data.region, c.is_locked);
    let a1 = comment_lines(c.data.comments);
    let a2 = production_lines(c.is_production);
    let a3 = seq![cred_header_line(c.name, c.is_locked)];
    let a4 = seq![value_line(pfx, "aws_access_key_id"@, c.data.aws_access_key_id)];
    let a5 = seq![value_line(pfx, "aws_secret_access_key"@, c.data.aws_secret_access_key)];
    let a6 = opt_value_lines(pfx, "aws_session_token"@, c.data.aws_session_token);
    let a7 = opt_value_lines(pfx, "aws_session_expiration"@, c.data.aws_session_expiration);
    let a8 = opt_value_lines(pfx, "aws_security_token"@, c.data.aws_security_token);
    let a9 = opt_value_lines(pfx, "region"@, c.data.region);
    assert(lines_ok(a4)) by {
        assert(a4 =~= opt_value_lines(pfx, "aws_access_key_id"@, Some(c.data.aws_access_key_id)));
    }
    assert(lines_ok(a5)) by {
        assert(a5 =~= opt_value_lines(
            pfx,
            "aws_secret_access_key"@,
            Some(c.data.aws_secret_access_key),
        ));
    }
    lemma_lines_ok_concat(a1, a2);
    lemma_lines_ok_concat(a1 + a2, a3);
    lemma_lines_ok_concat(a1 + a2 + a3, a4);
    lemma_lines_ok_concat(a1 + a2 + a3 + a4, a5);
    lemma_lines_ok_concat(a1 + a2 + a3 + a4 + a5, a6);
    lemma_lines_ok_concat(a1 + a2 + a3 + a4 + a5 + a6, a7);
    lemma_lines_ok_concat(a1 + a2 + a3 + a4 + a5 + a6 + a7, a8);
    lemma_lines_ok_concat(a1 + a2 + a3 + a4 + a5 + a6 + a7 + a8, a9);
}

proof fn lemma_config_lines_rest_ok(ps: Seq<MetaV<ProfV>>)
    requires
        all_wf(ps),
    ensures
        lines_ok(crate::aws_profile::config_lines_rest(ps)),
    decreases ps.len(),
{
    if ps.len() > 0 {
        assert(wf_profile(ps[0]));
        lemma_conf_entry_lines_ok(conf_side(ps[0]));
        lemma_all_wf_drop(ps);
        lemma_config_lines_rest_ok(ps.drop_first());
        assert(lines_ok(seq![Seq::<char>::empty()])) by {
            assert forall|i: int| 0 <= i < 1 implies line_ok(
                #[trigger] seq![Seq::<char>::empty()][i],
            ) by {
                lemma_no_char_in(Seq::<char>::empty(), '\n');
            }
        }
        lemma_lines_ok_concat(seq![Seq::<char>::empty()], conf_entry_lines(conf_side(ps[0])));
        lemma_lines_ok_concat(
            seq![Seq::<char>::empty()] + conf_entry_lines(conf_side(ps[0])),
            crate::aws_profile::config_lines_rest(ps.drop_first()),
        );
    }
}

proof fn lemma_config_lines_ok(ps: Seq<MetaV<ProfV>>)
    requires
        all_wf(ps),
    ensures
        lines_ok(crate::aws_profile::config_lines(ps)),
{
    if ps.len() > 0 {
        assert(wf_profile(ps[0]));
        lemma_conf_entry_lines_ok(conf_side(ps[0]));
        lemma_all_wf_drop(ps);
        lemma_config_lines_rest_ok(ps.drop_first());
        lemma_lines_ok_concat(
            conf_entry_lines(conf_side(ps[0])),
            crate::aws_profile::config_lines_rest(ps.drop_first()),
        );
    }
}

proof fn lemma_credentials_lines_rest_ok(ps: Seq<MetaV<ProfV>>)
    requires
        all_wf(ps),
    ensures
        lines_ok(crate::aws_profile::credentials_lines_rest(ps)),
    decreases ps.len(),
{
    if ps.len() > 0 {
        assert(wf_profile(ps[0]));
        lemma_cred_entry_lines_ok(cred_side(ps[0]));
        lemma_all_wf_drop(ps);
        lemma_credentials_lines_rest_ok(ps.drop_first());
        assert(lines_ok(seq![Seq::<char>::empty()])) by {
            assert forall|i: int| 0 <= i < 1 implies line_ok(
                #[trigger] seq![Seq::<char>::empty()][i],
            ) by {
                lemma_no_char_in(Seq::<char>::empty(), '\n');
            }
        }
        lemma_lines_ok_concat(seq![Seq::<char>::empty()], cred_entry_lines(cred_side(ps[0])));
        lemma_lines_ok_concat(
            seq![Seq::<char>::empty()] + cred_entry_lines(cred_side(ps[0])),
            crate::aws_profile::credentials_lines_rest(ps.drop_first()),
        );
    }
}

proof fn lemma_credentials_lines_ok(ps: Seq<MetaV<ProfV>>)
    requires
        all_wf(ps),
    ensures
        lines_ok(crate::aws_profile::credentials_lines(ps)),
{
    if ps.len() > 0 {
        assert(wf_profile(ps[0]));
        lemma_cred_entry_lines_ok(cred_side(ps[0]));
        lemma_all_wf_drop(ps);
        lemma_credentials_lines_rest_ok(ps.drop_first());
        lemma_lines_ok_concat(
            cred_entry_lines(cred_side(ps[0])),
            crate::aws_profile::credentials_lines_rest(ps.drop_first()),
        );
    }
}

// ------------------------------------------------------------------
// The round-trip law
// ------------------------------------------------------------------

/// Writing well-formed profiles with distinct names and parsing the two
/// texts back gives exactly the profiles.
pub proof fn lemma_write_parse_round_trip(ps: Seq<MetaV<ProfV>>)
    requires
        all_wf(ps),
        forall|i: int, j: int| 0 <= i < j < ps.len() ==> ps[i].name != ps[j].name,
    ensures
        crate::aws_profile::spec_parse_profiles(
            crate::aws_profile::spec_write_config(ps),
            crate::aws_profile::spec_write_credentials(ps),
        ) == Ok::<Seq<MetaV<ProfV>>, crate::error::ErrV>(ps),
{
    // the config side
    let clines = crate::aws_profile::config_lines(ps);
    lemma_config_lines_ok(ps);
    assert forall|i: int| 0 <= i < clines.len() implies !(#[trigger] clines[i]).contains('\n') by {
        assert(line_ok(clines[i]));
    }
    assert forall|i: int|
        0 <= i < clines.len() implies ((#[trigger] clines[i]).len() > 0 ==> clines[i].last()
            != '\r') by {
        assert(line_ok(clines[i]));
    }
    crate::text::lemma_lines_unlines(clines);
    assert(crate::text::spec_lines(crate::aws_profile::spec_write_config(ps)) == clines);
    lemma_tokenize_config(ps);
    lemma_parse_config_tokens(ps);
    lemma_records_conf(ps);
    assert(crate::aws_profile::spec_parse_config(crate::aws_profile::spec_write_config(ps))
        == Ok::<Seq<MetaV<ConfV>>, crate::error::ErrV>(
        ps.map_values(|p: MetaV<ProfV>| conf_side(p)),
    ));
    // the credentials side
    let rlines = crate::aws_profile::credentials_lines(ps);
    lemma_credentials_lines_ok(ps);
    assert forall|i: int| 0 <= i < rlines.len() implies !(#[trigger] rlines[i]).contains('\n') by {
        assert(line_ok(rlines[i]));
    }
    assert forall|i: int|
        0 <= i < rlines.len() implies ((#[trigger] rlines[i]).len() > 0 ==> rlines[i].last()
            != '\r') by {
        assert(line_ok(rlines[i]));
    }
    crate::text::lemma_lines_unlines(rlines);
    assert(crate::text::spec_lines(crate::aws_profile::spec_write_credentials(ps)) == rlines);
    lemma_tokenize_credentials(ps);
    lemma_parse_credentials_tokens(ps);
    lemma_records_cred(ps);
    assert(crate::aws_profile::spec_parse_credentials(
        crate::aws_profile::spec_write_credentials(ps),
    ) == Ok::<Seq<MetaV<CredV>>, crate::error::ErrV>(
        ps.map_values(|p: MetaV<ProfV>| cred_side(p)),
    ));
    // the merge
    lemma_merge_back(ps);
}

/// The round-trip law of the store: any profile sequence the store parser
/// can produce is reproduced exactly by parsing the serializer's output.
pub proof fn lemma_round_trip(conf_text: Seq<char>, cred_text: Seq<char>)
    ensures
        crate::aws_profile::spec_parse_profiles(conf_text, cred_text) matches Ok(ps)
            ==> crate::aws_profile::spec_parse_profiles(
            crate::aws_profile::spec_write_config(ps),
            crate::aws_profile::spec_write_credentials(ps),
        ) == Ok::<Seq<MetaV<ProfV>>, crate::error::ErrV>(ps),
{
    lemma_parse_profiles_wf(conf_text, cred_text);
    if let Ok(ps) = crate::aws_profile::spec_parse_profiles(conf_text, cred_text) {
        lemma_write_parse_round_trip(ps);
    }
}

} // verus!
