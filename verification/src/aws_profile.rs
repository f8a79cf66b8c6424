//! The profile model: profile identity, the per-file data records, the merge
//! of the two files' entries into unified profiles, and the round-trip
//! serializer that writes the profiles back with locking applied.

use vstd::prelude::*;

use crate::error::{AwsError, ErrV};
use crate::line_lexer::{spec_tokenize, EntryLineLexer, LineV};
use crate::line_parser::{lookup, spec_lookup, spec_parse, Entry, EntryLineParser, EntryV};
use crate::text::{find_char, index_of_char, spec_lines, str_eq};

verus! {

// ------------------------------------------------------------------
// Profile identity
// ------------------------------------------------------------------

/// Identity of a profile: the default profile, or a named one.
#[derive(Debug)]
pub enum ProfileName {
    Default,
    Named(String),
}

impl Clone for ProfileName {
    fn clone(&self) -> (r: Self)
        ensures
            r == *self,
    {
        match self {
            ProfileName::Default => ProfileName::Default,
            ProfileName::Named(s) => ProfileName::Named(s.clone()),
        }
    }
}

/// The mathematical image of a `ProfileName`.
#[verifier::ext_equal]
pub enum NameV {
    Default,
    Named(Seq<char>),
}

impl DeepView for ProfileName {
    type V = NameV;

    open spec fn deep_view(&self) -> NameV {
        match self {
            ProfileName::Default => NameV::Default,
            ProfileName::Named(s) => NameV::Named(s@),
        }
    }
}

/// The profile name spelled by free text: the literal `default` denotes the
/// default profile, any other text a named one.
pub open spec fn name_of(s: Seq<char>) -> NameV {
    if s == "default"@ {
        NameV::Default
    } else {
        NameV::Named(s)
    }
}

impl ProfileName {
    /// Build the profile name that the text `s` denotes.
    pub fn from_text(s: String) -> (r: ProfileName)
        ensures
            r.deep_view() == name_of(s@),
    {
        if crate::text::str_eq(s.as_str(), "default") {
            ProfileName::Default
        } else {
            ProfileName::Named(s)
        }
    }
}

impl PartialEq for ProfileName {
    fn eq(&self, other: &Self) -> bool {
        match (self, other) {
            (ProfileName::Default, ProfileName::Default) => true,
            (ProfileName::Named(a), ProfileName::Named(b)) => *a == *b,
            _ => false,
        }
    }
}

impl Eq for ProfileName {

}

impl vstd::std_specs::cmp::PartialEqSpecImpl for ProfileName {
    open spec fn obeys_eq_spec() -> bool {
        true
    }

    open spec fn eq_spec(&self, other: &Self) -> bool {
        self.deep_view() == other.deep_view()
    }
}

// ------------------------------------------------------------------
// Per-file records and the merged profile
// ------------------------------------------------------------------

/// Profile-level metadata wrapped around a per-file (or merged) record.
#[derive(Debug, Clone)]
pub struct WithAwsProfileMetadata<T> {
    pub name: ProfileName,
    pub is_production: bool,
    pub is_locked: bool,
    pub data: T,
}

/// The mathematical image of `WithAwsProfileMetadata`.
#[verifier::ext_equal]
pub struct MetaV<D> {
    pub name: NameV,
    pub is_production: bool,
    pub is_locked: bool,
    pub data: D,
}

impl<T: DeepView> DeepView for WithAwsProfileMetadata<T> {
    type V = MetaV<T::V>;

    open spec fn deep_view(&self) -> MetaV<T::V> {
        MetaV {
            name: self.name.deep_view(),
            is_production: self.is_production,
            is_locked: self.is_locked,
            data: self.data.deep_view(),
        }
    }
}

impl<T: DeepView> WithAwsProfileMetadata<T> {
    /// The same metadata around a reference to the record.
    pub fn to_ref(&self) -> (r: WithAwsProfileMetadata<&T>)
        ensures
            r.deep_view() == self.deep_view(),
    {
        WithAwsProfileMetadata {
            name: self.name.clone(),
            is_production: self.is_production,
            is_locked: self.is_locked,
            data: &self.data,
        }
    }

    /// The same metadata around the image of the record under `f`.
    pub fn map<U: DeepView, F: FnOnce(T) -> U>(self, f: F) -> (r: WithAwsProfileMetadata<U>)
        requires
            call_requires(f, (self.data,)),
        ensures
            r.name.deep_view() == self.name.deep_view(),
            r.is_production == self.is_production,
            r.is_locked == self.is_locked,
            call_ensures(f, (self.data,), r.data),
    {
        WithAwsProfileMetadata {
            name: self.name,
            is_production: self.is_production,
            is_locked: self.is_locked,
            data: f(self.data),
        }
    }
}

/// The config-file side of a profile.
#[derive(Debug, Clone)]
pub struct AwsConfigData {
    /// Comment lines of the config-file entry.
    pub comments: Vec<String>,
    /// The `region` value, if present.
    pub region: Option<String>,
    /// The `output` value, if present.
    pub output: Option<String>,
}

/// The credentials-file side of a profile.
#[derive(Debug, Clone)]
pub struct AwsCredentialData {
    /// Comment lines of the credentials-file entry.
    pub comments: Vec<String>,
    /// The `aws_access_key_id` value; required.
    pub aws_access_key_id: String,
    /// The `aws_secret_access_key` value; required.
    pub aws_secret_access_key: String,
    /// The `aws_session_token` value, if present.
    pub aws_session_token: Option<String>,
    /// The `aws_session_expiration` value, if present.
    pub aws_session_expiration: Option<String>,
    /// The `aws_security_token` value, if present.
    pub aws_security_token: Option<String>,
    /// The `region` value, if present.
    pub region: Option<String>,
}

/// Both sides of a merged profile.
#[derive(Debug, Clone)]
pub struct AwsProfileData {
    pub conf: AwsConfigData,
    pub cred: AwsCredentialData,
}

pub type AwsProfile = WithAwsProfileMetadata<AwsProfileData>;

pub type AwsConfig = WithAwsProfileMetadata<AwsConfigData>;

pub type AwsCredential = WithAwsProfileMetadata<AwsCredentialData>;

/// The mathematical image of `AwsConfigData`.
#[verifier::ext_equal]
pub struct ConfV {
    pub comments: Seq<Seq<char>>,
    pub region: Option<Seq<char>>,
    pub output: Option<Seq<char>>,
}

/// The mathematical image of `AwsCredentialData`.
#[verifier::ext_equal]
pub struct CredV {
    pub comments: Seq<Seq<char>>,
    pub aws_access_key_id: Seq<char>,
    pub aws_secret_access_key: Seq<char>,
    pub aws_session_token: Option<Seq<char>>,
    pub aws_session_expiration: Option<Seq<char>>,
    pub aws_security_token: Option<Seq<char>>,
    pub region: Option<Seq<char>>,
}

/// The mathematical image of `AwsProfileData`.
#[verifier::ext_equal]
pub struct ProfV {
    pub conf: ConfV,
    pub cred: CredV,
}

impl DeepView for AwsConfigData {
    type V = ConfV;

    open spec fn deep_view(&self) -> ConfV {
        ConfV {
            comments: self.comments.deep_view(),
            region: self.region.deep_view(),
            output: self.output.deep_view(),
        }
    }
}

impl DeepView for AwsCredentialData {
    type V = CredV;

    open spec fn deep_view(&self) -> CredV {
        CredV {
            comments: self.comments.deep_view(),
            aws_access_key_id: self.aws_access_key_id@,
            aws_secret_access_key: self.aws_secret_access_key@,
            aws_session_token: self.aws_session_token.deep_view(),
            aws_session_expiration: self.aws_session_expiration.deep_view(),
            aws_security_token: self.aws_security_token.deep_view(),
            region: self.region.deep_view(),
        }
    }
}

impl DeepView for AwsProfileData {
    type V = ProfV;

    open spec fn deep_view(&self) -> ProfV {
        ProfV { conf: self.conf.deep_view(), cred: self.cred.deep_view() }
    }
}

/// The empty config-file record: no comments, no values.
pub open spec fn empty_conf() -> ConfV {
    ConfV { comments: Seq::empty(), region: None, output: None }
}

impl AwsConfigData {
    /// The record a profile without a config-file entry defaults to.
    pub fn empty() -> (r: AwsConfigData)
        ensures
            r.deep_view() == empty_conf(),
    {
        let r = AwsConfigData { comments: Vec::new(), region: None, output: None };
        proof {
            assert(r.deep_view() =~= empty_conf());
        }
        r
    }
}

// ------------------------------------------------------------------
// Per-file records from parsed entries
// ------------------------------------------------------------------

/// The config-file record an entry denotes: its header must be `default` or
/// `profile <name>`.
pub open spec fn conf_of_entry(e: EntryV) -> Result<MetaV<ConfV>, ErrV> {
    if e.header == "default"@ {
        Ok(conf_meta(NameV::Default, e))
    } else {
        let i = find_char(e.header, ' ');
        if i < e.header.len() && e.header.take(i) == "profile"@ {
            Ok(conf_meta(name_of(e.header.skip(i + 1)), e))
        } else {
            Err(ErrV::InvalidHeader(e.header))
        }
    }
}

pub open spec fn conf_meta(n: NameV, e: EntryV) -> MetaV<ConfV> {
    MetaV {
        name: n,
        is_production: e.is_production,
        is_locked: e.is_locked,
        data: ConfV {
            comments: e.comments,
            region: spec_lookup(e.values, "region"@),
            output: spec_lookup(e.values, "output"@),
        },
    }
}

/// The credentials-file record an entry denotes: the header is the profile
/// name, and the key id and secret key are required.
pub open spec fn cred_of_entry(e: EntryV) -> Result<MetaV<CredV>, ErrV> {
    let n = name_of(e.header);
    if spec_lookup(e.values, "aws_access_key_id"@) is None {
        Err(ErrV::MissingRequiredField("aws_access_key_id"@, n))
    } else if spec_lookup(e.values, "aws_secret_access_key"@) is None {
        Err(ErrV::MissingRequiredField("aws_secret_access_key"@, n))
    } else {
        Ok(
            MetaV {
                name: n,
                is_production: e.is_production,
                is_locked: e.is_locked,
                data: CredV {
                    comments: e.comments,
                    aws_access_key_id: spec_lookup(e.values, "aws_access_key_id"@)->Some_0,
                    aws_secret_access_key: spec_lookup(e.values, "aws_secret_access_key"@)->Some_0,
                    aws_session_token: spec_lookup(e.values, "aws_session_token"@),
                    aws_session_expiration: spec_lookup(e.values, "aws_session_expiration"@),
                    aws_security_token: spec_lookup(e.values, "aws_security_token"@),
                    region: spec_lookup(e.values, "region"@),
                },
            },
        )
    }
}

pub open spec fn confs_of_entries(es: Seq<EntryV>) -> Result<Seq<MetaV<ConfV>>, ErrV>
    decreases es.len(),
{
    if es.len() == 0 {
        Ok(Seq::empty())
    } else {
        match conf_of_entry(es[0]) {
            Err(e) => Err(e),
            Ok(c) => match confs_of_entries(es.drop_first()) {
                Err(e) => Err(e),
                Ok(cs) => Ok(seq![c] + cs),
            },
        }
    }
}

pub open spec fn creds_of_entries(es: Seq<EntryV>) -> Result<Seq<MetaV<CredV>>, ErrV>
    decreases es.len(),
{
    if es.len() == 0 {
        Ok(Seq::empty())
    } else {
        match cred_of_entry(es[0]) {
            Err(e) => Err(e),
            Ok(c) => match creds_of_entries(es.drop_first()) {
                Err(e) => Err(e),
                Ok(cs) => Ok(seq![c] + cs),
            },
        }
    }
}

/// The whole config-file pipeline: lines, tokens, entries, records.
pub open spec fn spec_parse_config(text: Seq<char>) -> Result<Seq<MetaV<ConfV>>, ErrV> {
    match spec_tokenize(spec_lines(text)) {
        Err(l) => Err(ErrV::MalformedLine(l)),
        Ok(toks) => match spec_parse(toks) {
            Err(e) => Err(e),
            Ok(es) => confs_of_entries(es),
        },
    }
}

/// The whole credentials-file pipeline.
pub open spec fn spec_parse_credentials(text: Seq<char>) -> Result<Seq<MetaV<CredV>>, ErrV> {
    match spec_tokenize(spec_lines(text)) {
        Err(l) => Err(ErrV::MalformedLine(l)),
        Ok(toks) => match spec_parse(toks) {
            Err(e) => Err(e),
            Ok(es) => creds_of_entries(es),
        },
    }
}

// ------------------------------------------------------------------
// Merging the two files' records
// ------------------------------------------------------------------

pub open spec fn conf_names(cs: Seq<MetaV<ConfV>>) -> Seq<NameV> {
    cs.map_values(|c: MetaV<ConfV>| c.name)
}

pub open spec fn cred_names(cs: Seq<MetaV<CredV>>) -> Seq<NameV> {
    cs.map_values(|c: MetaV<CredV>| c.name)
}

/// First-appearance deduplication: names already seen are dropped.
pub open spec fn dedup(ns: Seq<NameV>, seen: Seq<NameV>) -> Seq<NameV>
    decreases ns.len(),
{
    if ns.len() == 0 {
        Seq::empty()
    } else if seen.contains(ns[0]) {
        dedup(ns.drop_first(), seen)
    } else {
        seq![ns[0]] + dedup(ns.drop_first(), seen.push(ns[0]))
    }
}

/// The merged profile order: config-file names first, then credentials-file
/// names, first appearance kept.
pub open spec fn merged_names(confs: Seq<MetaV<ConfV>>, creds: Seq<MetaV<CredV>>) -> Seq<NameV> {
    dedup(conf_names(confs) + cred_names(creds), Seq::empty())
}

/// The last record of the given name, a later duplicate shadowing an
/// earlier one.
pub open spec fn find_last_conf(cs: Seq<MetaV<ConfV>>, n: NameV) -> Option<MetaV<ConfV>>
    decreases cs.len(),
{
    if cs.len() == 0 {
        None
    } else if cs.last().name == n {
        Some(cs.last())
    } else {
        find_last_conf(cs.drop_last(), n)
    }
}

pub open spec fn find_last_cred(cs: Seq<MetaV<CredV>>, n: NameV) -> Option<MetaV<CredV>>
    decreases cs.len(),
{
    if cs.len() == 0 {
        None
    } else if cs.last().name == n {
        Some(cs.last())
    } else {
        find_last_cred(cs.drop_last(), n)
    }
}

/// One merged profile: flags are the disjunction of the two sides', a
/// missing config side defaults to the empty record.
pub open spec fn mk_profile(n: NameV, cf: Option<MetaV<ConfV>>, cr: MetaV<CredV>) -> MetaV<ProfV> {
    let cfm = match cf {
        Some(c) => c,
        None => MetaV { name: n, is_production: false, is_locked: false, data: empty_conf() },
    };
    MetaV {
        name: n,
        is_production: cfm.is_production || cr.is_production,
        is_locked: cfm.is_locked || cr.is_locked,
        data: ProfV { conf: cfm.data, cred: cr.data },
    }
}

pub open spec fn build_profiles(
    names: Seq<NameV>,
    confs: Seq<MetaV<ConfV>>,
    creds: Seq<MetaV<CredV>>,
) -> Result<Seq<MetaV<ProfV>>, ErrV>
    decreases names.len(),
{
    if names.len() == 0 {
        Ok(Seq::empty())
    } else {
        match find_last_cred(creds, names[0]) {
            None => Err(ErrV::MissingCredentials(names[0])),
            Some(cr) => match build_profiles(names.drop_first(), confs, creds) {
                Err(e) => Err(e),
                Ok(ps) => Ok(
                    seq![mk_profile(names[0], find_last_conf(confs, names[0]), cr)] + ps,
                ),
            },
        }
    }
}

/// Merge the two files' records: every profile needs a credentials-file
/// entry; a config-file entry is optional.
pub open spec fn spec_merge(confs: Seq<MetaV<ConfV>>, creds: Seq<MetaV<CredV>>) -> Result<
    Seq<MetaV<ProfV>>,
    ErrV,
> {
    build_profiles(merged_names(confs, creds), confs, creds)
}

/// The whole store pipeline over the two files' texts.
pub open spec fn spec_parse_profiles(conf_text: Seq<char>, cred_text: Seq<char>) -> Result<
    Seq<MetaV<ProfV>>,
    ErrV,
> {
    match spec_parse_config(conf_text) {
        Err(e) => Err(e),
        Ok(confs) => match spec_parse_credentials(cred_text) {
            Err(e) => Err(e),
            Ok(creds) => spec_merge(confs, creds),
        },
    }
}

// ------------------------------------------------------------------
// Executable parsing and merging
// ------------------------------------------------------------------

/// Clone a vector of strings, preserving the view.
fn clone_strings(v: &Vec<String>) -> (r: Vec<String>)
    ensures
        r.deep_view() == v.deep_view(),
{
    let n = v.len();
    let mut r: Vec<String> = Vec::new();
    let mut i: usize = 0;
    while i < n
        invariant
            0 <= i <= n,
            n == v.len(),
            r.deep_view() =~= v.deep_view().take(i as int),
        decreases n - i,
    {
        let ghost old_r = r.deep_view();
        r.push(v[i].clone());
        proof {
            assert(r.deep_view() =~= old_r.push(v.deep_view()[i as int]));
            assert(r.deep_view() =~= v.deep_view().take(i as int + 1));
        }
        i = i + 1;
    }
    proof {
        assert(v.deep_view().take(n as int) =~= v.deep_view());
    }
    r
}

/// The config-file record of one entry, as `conf_of_entry` describes.
fn conf_record(e: &Entry) -> (r: Result<AwsConfig, AwsError>)
    ensures
        match r {
            Ok(c) => conf_of_entry(e.deep_view()) == Ok::<MetaV<ConfV>, ErrV>(c.deep_view()),
            Err(err) => conf_of_entry(e.deep_view()) == Err::<MetaV<ConfV>, ErrV>(err.deep_view()),
        },
{
    let h = e.header.as_str();
    let name: ProfileName = if str_eq(h, "default") {
        ProfileName::Default
    } else {
        match index_of_char(h, ' ') {
            Some(i) => {
                let hn = h.unicode_len();
                let left = h.substring_char(0, i);
                proof {
                    assert(left@ =~= e.header@.take(i as int));
                }
                if str_eq(left, "profile") {
                    let rest = h.substring_char(i + 1, hn);
                    proof {
                        assert(rest@ =~= e.header@.skip(i as int + 1));
                    }
                    ProfileName::from_text(rest.to_owned())
                } else {
                    return Err(AwsError::InvalidHeader(e.header.clone()));
                }
            },
            None => {
                return Err(AwsError::InvalidHeader(e.header.clone()));
            },
        }
    };
    let region = lookup(&e.values, "region");
    let output = lookup(&e.values, "output");
    let c = WithAwsProfileMetadata {
        name,
        is_production: e.is_production,
        is_locked: e.is_locked,
        data: AwsConfigData { comments: clone_strings(&e.comments), region, output },
    };
    proof {
        assert(c.deep_view() =~= conf_of_entry(e.deep_view())->Ok_0);
    }
    Ok(c)
}

/// The credentials-file record of one entry, as `cred_of_entry` describes.
fn cred_record(e: &Entry) -> (r: Result<AwsCredential, AwsError>)
    ensures
        match r {
            Ok(c) => cred_of_entry(e.deep_view()) == Ok::<MetaV<CredV>, ErrV>(c.deep_view()),
            Err(err) => cred_of_entry(e.deep_view()) == Err::<MetaV<CredV>, ErrV>(err.deep_view()),
        },
{
    let name = ProfileName::from_text(e.header.clone());
    let aws_access_key_id = match lookup(&e.values, "aws_access_key_id") {
        Some(v) => v,
        None => {
            return Err(AwsError::MissingRequiredField("aws_access_key_id".to_owned(), name));
        },
    };
    let aws_secret_access_key = match lookup(&e.values, "aws_secret_access_key") {
        Some(v) => v,
        None => {
            return Err(AwsError::MissingRequiredField("aws_secret_access_key".to_owned(), name));
        },
    };
    let c = WithAwsProfileMetadata {
        name,
        is_production: e.is_production,
        is_locked: e.is_locked,
        data: AwsCredentialData {
            comments: clone_strings(&e.comments),
            aws_access_key_id,
            aws_secret_access_key,
            aws_session_token: lookup(&e.values, "aws_session_token"),
            aws_session_expiration: lookup(&e.values, "aws_session_expiration"),
            aws_security_token: lookup(&e.values, "aws_security_token"),
            region: lookup(&e.values, "region"),
        },
    };
    proof {
        assert(c.deep_view() =~= cred_of_entry(e.deep_view())->Ok_0);
    }
    Ok(c)
}

/// Parse the config file's text into its records.
pub fn parse_config(text: &str) -> (r: Result<Vec<AwsConfig>, AwsError>)
    ensures
        match r {
            Ok(cs) => spec_parse_config(text@) == Ok::<Seq<MetaV<ConfV>>, ErrV>(cs.deep_view()),
            Err(e) => spec_parse_config(text@) == Err::<Seq<MetaV<ConfV>>, ErrV>(e.deep_view()),
        },
{
    let lexer = EntryLineLexer::new(text);
    let tokens = match lexer.tokenize() {
        Ok(t) => t,
        Err(e) => {
            return Err(e);
        },
    };
    let ghost toksv = tokens.deep_view();
    let mut parser = EntryLineParser::new(tokens);
    proof {
        assert(parser.tokens().skip(0) =~= parser.tokens());
    }
    let entries = match parser.parse() {
        Ok(es) => es,
        Err(e) => {
            return Err(e);
        },
    };
    let ghost evs = entries.deep_view();
    proof {
        assert(spec_tokenize(spec_lines(text@)) == Ok::<Seq<LineV>, Seq<char>>(toksv));
        assert(spec_parse(toksv) == Ok::<Seq<EntryV>, ErrV>(evs));
        assert(spec_parse_config(text@) == confs_of_entries(evs));
    }
    let n = entries.len();
    let mut out: Vec<AwsConfig> = Vec::new();
    let mut i: usize = 0;
    proof {
        assert(out.deep_view() =~= Seq::<MetaV<ConfV>>::empty());
        assert(evs.skip(0) =~= evs);
    }
    while i < n
        invariant
            0 <= i <= n,
            n == entries.len(),
            evs == entries.deep_view(),
            spec_parse_config(text@) == confs_of_entries(evs),
            match confs_of_entries(evs) {
                Ok(cs) => confs_of_entries(evs.skip(i as int)) matches Ok(rest) && cs
                    == out.deep_view() + rest,
                Err(e) => confs_of_entries(evs.skip(i as int)) == Err::<Seq<MetaV<ConfV>>, ErrV>(e),
            },
        decreases n - i,
    {
        let ghost suffix = evs.skip(i as int);
        proof {
            assert(suffix[0] == evs[i as int]);
            assert(suffix.drop_first() =~= evs.skip(i as int + 1));
        }
        match conf_record(&entries[i]) {
            Err(e) => {
                proof {
                    assert(confs_of_entries(suffix) == Err::<Seq<MetaV<ConfV>>, ErrV>(
                        e.deep_view(),
                    ));
                }
                return Err(e);
            },
            Ok(c) => {
                let ghost old_out = out.deep_view();
                out.push(c);
                i = i + 1;
                proof {
                    assert(out.deep_view() =~= old_out.push(out.deep_view().last()));
                    if let Ok(cs) = confs_of_entries(evs) {
                        let c0 = conf_of_entry(suffix[0])->Ok_0;
                        if let Ok(rest1) = confs_of_entries(evs.skip(i as int)) {
                            assert(confs_of_entries(suffix) == Ok::<Seq<MetaV<ConfV>>, ErrV>(
                                seq![c0] + rest1,
                            ));
                            assert(old_out + (seq![c0] + rest1) =~= out.deep_view() + rest1);
                        }
                    }
                }
            },
        }
    }
    proof {
        assert(evs.skip(n as int) =~= Seq::<EntryV>::empty());
        if let Ok(cs) = confs_of_entries(evs) {
            assert(cs =~= out.deep_view());
        }
    }
    Ok(out)
}

/// Parse the credentials file's text into its records.
pub fn parse_credentials(text: &str) -> (r: Result<Vec<AwsCredential>, AwsError>)
    ensures
        match r {
            Ok(cs) => spec_parse_credentials(text@) == Ok::<Seq<MetaV<CredV>>, ErrV>(
                cs.deep_view(),
            ),
            Err(e) => spec_parse_credentials(text@) == Err::<Seq<MetaV<CredV>>, ErrV>(
                e.deep_view(),
            ),
        },
{
    let lexer = EntryLineLexer::new(text);
    let tokens = match lexer.tokenize() {
        Ok(t) => t,
        Err(e) => {
            return Err(e);
        },
    };
    let ghost toksv = tokens.deep_view();
    let mut parser = EntryLineParser::new(tokens);
    proof {
        assert(parser.tokens().skip(0) =~= parser.tokens());
    }
    let entries = match parser.parse() {
        Ok(es) => es,
        Err(e) => {
            return Err(e);
        },
    };
    let ghost evs = entries.deep_view();
    proof {
        assert(spec_tokenize(spec_lines(text@)) == Ok::<Seq<LineV>, Seq<char>>(toksv));
        assert(spec_parse(toksv) == Ok::<Seq<EntryV>, ErrV>(evs));
        assert(spec_parse_credentials(text@) == creds_of_entries(evs));
    }
    let n = entries.len();
    let mut out: Vec<AwsCredential> = Vec::new();
    let mut i: usize = 0;
    proof {
        assert(out.deep_view() =~= Seq::<MetaV<CredV>>::empty());
        assert(evs.skip(0) =~= evs);
    }
    while i < n
        invariant
            0 <= i <= n,
            n == entries.len(),
            evs == entries.deep_view(),
            spec_parse_credentials(text@) == creds_of_entries(evs),
            match creds_of_entries(evs) {
                Ok(cs) => creds_of_entries(evs.skip(i as int)) matches Ok(rest) && cs
                    == out.deep_view() + rest,
                Err(e) => creds_of_entries(evs.skip(i as int)) == Err::<Seq<MetaV<CredV>>, ErrV>(e),
            },
        decreases n - i,
    {
        let ghost suffix = evs.skip(i as int);
        proof {
            assert(suffix[0] == evs[i as int]);
            assert(suffix.drop_first() =~= evs.skip(i as int + 1));
        }
        match cred_record(&entries[i]) {
            Err(e) => {
                proof {
                    assert(creds_of_entries(suffix) == Err::<Seq<MetaV<CredV>>, ErrV>(
                        e.deep_view(),
                    ));
                }
                return Err(e);
            },
            Ok(c) => {
                let ghost old_out = out.deep_view();
                out.push(c);
                i = i + 1;
                proof {
                    assert(out.deep_view() =~= old_out.push(out.deep_view().last()));
                    if let Ok(cs) = creds_of_entries(evs) {
                        let c0 = cred_of_entry(suffix[0])->Ok_0;
                        if let Ok(rest1) = creds_of_entries(evs.skip(i as int)) {
                            assert(creds_of_entries(suffix) == Ok::<Seq<MetaV<CredV>>, ErrV>(
                                seq![c0] + rest1,
                            ));
                            assert(old_out + (seq![c0] + rest1) =~= out.deep_view() + rest1);
                        }
                    }
                }
            },
        }
    }
    proof {
        assert(evs.skip(n as int) =~= Seq::<EntryV>::empty());
        if let Ok(cs) = creds_of_entries(evs) {
            assert(cs =~= out.deep_view());
        }
    }
    Ok(out)
}

/// Does the name list contain `n`?
pub fn names_contain(names: &Vec<ProfileName>, n: &ProfileName) -> (r: bool)
    ensures
        r == names.deep_view().contains(n.deep_view()),
{
    let len = names.len();
    let mut i: usize = 0;
    while i < len
        invariant
            0 <= i <= len,
            len == names.len(),
            forall|u: int| 0 <= u < i ==> names.deep_view()[u] != n.deep_view(),
        decreases len - i,
    {
        if names[i] == *n {
            proof {
                assert(names.deep_view()[i as int] == n.deep_view());
            }
            return true;
        }
        i = i + 1;
    }
    proof {
        if names.deep_view().contains(n.deep_view()) {
            let w = choose|w: int|
                0 <= w < names.deep_view().len() && names.deep_view()[w] == n.deep_view();
        }
    }
    false
}

/// The merged profile-name order of the two record lists.
fn collect_names(confs: &Vec<AwsConfig>, creds: &Vec<AwsCredential>) -> (r: Vec<ProfileName>)
    ensures
        r.deep_view() == merged_names(confs.deep_view(), creds.deep_view()),
{
    let ghost allv = conf_names(confs.deep_view()) + cred_names(creds.deep_view());
    let cn = confs.len();
    let dn = creds.len();
    let mut all: Vec<ProfileName> = Vec::new();
    let mut i: usize = 0;
    while i < cn
        invariant
            0 <= i <= cn,
            cn == confs.len(),
            all.deep_view() =~= conf_names(confs.deep_view()).take(i as int),
        decreases cn - i,
    {
        let ghost old_all = all.deep_view();
        all.push(confs[i].name.clone());
        proof {
            assert(all.deep_view() =~= old_all.push(confs.deep_view()[i as int].name));
            assert(all.deep_view() =~= conf_names(confs.deep_view()).take(i as int + 1));
        }
        i = i + 1;
    }
    let mut j: usize = 0;
    while j < dn
        invariant
            0 <= j <= dn,
            dn == creds.len(),
            all.deep_view() =~= conf_names(confs.deep_view()) + cred_names(
                creds.deep_view(),
            ).take(j as int),
        decreases dn - j,
    {
        let ghost old_all = all.deep_view();
        all.push(creds[j].name.clone());
        proof {
            assert(all.deep_view() =~= old_all.push(creds.deep_view()[j as int].name));
            assert(all.deep_view() =~= conf_names(confs.deep_view()) + cred_names(
                creds.deep_view(),
            ).take(j as int + 1));
        }
        j = j + 1;
    }
    proof {
        assert(all.deep_view() =~= allv);
    }
    // first-appearance deduplication
    let an = all.len();
    let mut names: Vec<ProfileName> = Vec::new();
    let mut k: usize = 0;
    proof {
        assert(allv.skip(0) =~= allv);
        assert(names.deep_view() =~= Seq::<NameV>::empty());
        assert(Seq::<NameV>::empty() + dedup(allv, names.deep_view()) =~= dedup(
            allv,
            names.deep_view(),
        ));
    }
    while k < an
        invariant
            0 <= k <= an,
            an == all.len(),
            all.deep_view() == allv,
            dedup(allv, Seq::empty()) == names.deep_view() + dedup(
                allv.skip(k as int),
                names.deep_view(),
            ),
        decreases an - k,
    {
        let ghost suffix = allv.skip(k as int);
        proof {
            assert(suffix[0] == allv[k as int]);
            assert(suffix.drop_first() =~= allv.skip(k as int + 1));
        }
        let present = names_contain(&names, &all[k]);
        if !present {
            let ghost old_names = names.deep_view();
            names.push(all[k].clone());
            proof {
                assert(names.deep_view() =~= old_names.push(allv[k as int]));
                assert(dedup(suffix, old_names) == seq![allv[k as int]] + dedup(
                    allv.skip(k as int + 1),
                    names.deep_view(),
                ));
                assert(old_names + (seq![allv[k as int]] + dedup(
                    allv.skip(k as int + 1),
                    names.deep_view(),
                )) =~= names.deep_view() + dedup(allv.skip(k as int + 1), names.deep_view()));
            }
        }
        k = k + 1;
    }
    proof {
        assert(allv.skip(an as int) =~= Seq::<NameV>::empty());
        assert(dedup(allv, Seq::empty()) =~= names.deep_view());
    }
    names
}

/// The last config record of the given name is at the found index.
pub proof fn lemma_find_last_conf_at(cs: Seq<MetaV<ConfV>>, n: NameV, i: int)
    requires
        0 <= i < cs.len(),
        cs[i].name == n,
        forall|u: int| i < u < cs.len() ==> cs[u].name != n,
    ensures
        find_last_conf(cs, n) == Some(cs[i]),
    decreases cs.len(),
{
    if i < cs.len() - 1 {
        assert(cs.drop_last()[i] == cs[i]);
        assert forall|u: int| i < u < cs.drop_last().len() implies cs.drop_last()[u].name != n by {
            assert(cs.drop_last()[u] == cs[u]);
        }
        lemma_find_last_conf_at(cs.drop_last(), n, i);
    }
}

proof fn lemma_find_last_conf_none(cs: Seq<MetaV<ConfV>>, n: NameV)
    requires
        forall|u: int| 0 <= u < cs.len() ==> cs[u].name != n,
    ensures
        find_last_conf(cs, n) is None,
    decreases cs.len(),
{
    if cs.len() > 0 {
        assert forall|u: int| 0 <= u < cs.drop_last().len() implies cs.drop_last()[u].name != n by {
            assert(cs.drop_last()[u] == cs[u]);
        }
        lemma_find_last_conf_none(cs.drop_last(), n);
    }
}

pub proof fn lemma_find_last_cred_at(cs: Seq<MetaV<CredV>>, n: NameV, i: int)
    requires
        0 <= i < cs.len(),
        cs[i].name == n,
        forall|u: int| i < u < cs.len() ==> cs[u].name != n,
    ensures
        find_last_cred(cs, n) == Some(cs[i]),
    decreases cs.len(),
{
    if i < cs.len() - 1 {
        assert(cs.drop_last()[i] == cs[i]);
        assert forall|u: int| i < u < cs.drop_last().len() implies cs.drop_last()[u].name != n by {
            assert(cs.drop_last()[u] == cs[u]);
        }
        lemma_find_last_cred_at(cs.drop_last(), n, i);
    }
}

proof fn lemma_find_last_cred_none(cs: Seq<MetaV<CredV>>, n: NameV)
    requires
        forall|u: int| 0 <= u < cs.len() ==> cs[u].name != n,
    ensures
        find_last_cred(cs, n) is None,
    decreases cs.len(),
{
    if cs.len() > 0 {
        assert forall|u: int| 0 <= u < cs.drop_last().len() implies cs.drop_last()[u].name != n by {
            assert(cs.drop_last()[u] == cs[u]);
        }
        lemma_find_last_cred_none(cs.drop_last(), n);
    }
}

/// Index of the last config record named `n`, if any.
fn find_conf_idx(confs: &Vec<AwsConfig>, n: &ProfileName) -> (r: Option<usize>)
    ensures
        match r {
            Some(i) => i < confs.len() && find_last_conf(confs.deep_view(), n.deep_view())
                == Some(confs.deep_view()[i as int]),
            None => find_last_conf(confs.deep_view(), n.deep_view()) is None,
        },
{
    let len = confs.len();
    let mut i: usize = len;
    while i > 0
        invariant
            0 <= i <= len,
            len == confs.len(),
            forall|u: int| i <= u < len ==> confs.deep_view()[u].name != n.deep_view(),
        decreases i,
    {
        i = i - 1;
        if confs[i].name == *n {
            proof {
                lemma_find_last_conf_at(confs.deep_view(), n.deep_view(), i as int);
            }
            return Some(i);
        }
    }
    proof {
        lemma_find_last_conf_none(confs.deep_view(), n.deep_view());
    }
    None
}

/// Index of the last credentials record named `n`, if any.
fn find_cred_idx(creds: &Vec<AwsCredential>, n: &ProfileName) -> (r: Option<usize>)
    ensures
        match r {
            Some(i) => i < creds.len() && find_last_cred(creds.deep_view(), n.deep_view())
                == Some(creds.deep_view()[i as int]),
            None => find_last_cred(creds.deep_view(), n.deep_view()) is None,
        },
{
    let len = creds.len();
    let mut i: usize = len;
    while i > 0
        invariant
            0 <= i <= len,
            len == creds.len(),
            forall|u: int| i <= u < len ==> creds.deep_view()[u].name != n.deep_view(),
        decreases i,
    {
        i = i - 1;
        if creds[i].name == *n {
            proof {
                lemma_find_last_cred_at(creds.deep_view(), n.deep_view(), i as int);
            }
            return Some(i);
        }
    }
    proof {
        lemma_find_last_cred_none(creds.deep_view(), n.deep_view());
    }
    None
}

/// Clone an optional string, preserving the view.
fn clone_opt_string(o: &Option<String>) -> (r: Option<String>)
    ensures
        r.deep_view() == o.deep_view(),
{
    match o {
        None => None,
        Some(s) => Some(s.clone()),
    }
}

/// Clone a config-file record, preserving the view.
pub(crate) fn clone_conf_data(d: &AwsConfigData) -> (r: AwsConfigData)
    ensures
        r.deep_view() == d.deep_view(),
{
    let r = AwsConfigData {
        comments: clone_strings(&d.comments),
        region: clone_opt_string(&d.region),
        output: clone_opt_string(&d.output),
    };
    proof {
        assert(r.deep_view() =~= d.deep_view());
    }
    r
}

/// Clone a credentials-file record, preserving the view.
pub(crate) fn clone_cred_data(d: &AwsCredentialData) -> (r: AwsCredentialData)
    ensures
        r.deep_view() == d.deep_view(),
{
    let r = AwsCredentialData {
        comments: clone_strings(&d.comments),
        aws_access_key_id: d.aws_access_key_id.clone(),
        aws_secret_access_key: d.aws_secret_access_key.clone(),
        aws_session_token: clone_opt_string(&d.aws_session_token),
        aws_session_expiration: clone_opt_string(&d.aws_session_expiration),
        aws_security_token: clone_opt_string(&d.aws_security_token),
        region: clone_opt_string(&d.region),
    };
    proof {
        assert(r.deep_view() =~= d.deep_view());
    }
    r
}

/// Merge the two files' records into unified profiles, in first-appearance
/// name order; every profile must have a credentials record.
pub fn merge_profiles(confs: &Vec<AwsConfig>, creds: &Vec<AwsCredential>) -> (r: Result<
    Vec<AwsProfile>,
    AwsError,
>)
    ensures
        match r {
            Ok(ps) => spec_merge(confs.deep_view(), creds.deep_view()) == Ok::<
                Seq<MetaV<ProfV>>,
                ErrV,
            >(ps.deep_view()),
            Err(e) => spec_merge(confs.deep_view(), creds.deep_view()) == Err::<
                Seq<MetaV<ProfV>>,
                ErrV,
            >(e.deep_view()),
        },
{
    let ghost confsv = confs.deep_view();
    let ghost credsv = creds.deep_view();
    let names = collect_names(confs, creds);
    let ghost namesv = names.deep_view();
    let nn = names.len();
    let mut out: Vec<AwsProfile> = Vec::new();
    let mut k: usize = 0;
    proof {
        assert(out.deep_view() =~= Seq::<MetaV<ProfV>>::empty());
        assert(namesv.skip(0) =~= namesv);
    }
    while k < nn
        invariant
            0 <= k <= nn,
            nn == names.len(),
            namesv == names.deep_view(),
            confsv == confs.deep_view(),
            credsv == creds.deep_view(),
            namesv == merged_names(confsv, credsv),
            match build_profiles(namesv, confsv, credsv) {
                Ok(ps) => build_profiles(namesv.skip(k as int), confsv, credsv) matches Ok(rest)
                    && ps == out.deep_view() + rest,
                Err(e) => build_profiles(namesv.skip(k as int), confsv, credsv) == Err::<
                    Seq<MetaV<ProfV>>,
                    ErrV,
                >(e),
            },
        decreases nn - k,
    {
        let ghost suffix = namesv.skip(k as int);
        proof {
            assert(suffix[0] == namesv[k as int]);
            assert(suffix.drop_first() =~= namesv.skip(k as int + 1));
        }
        let nm = &names[k];
        match find_cred_idx(creds, nm) {
            None => {
                let e = AwsError::MissingCredentials(nm.clone());
                proof {
                    assert(build_profiles(suffix, confsv, credsv) == Err::<
                        Seq<MetaV<ProfV>>,
                        ErrV,
                    >(ErrV::MissingCredentials(namesv[k as int])));
                    assert(build_profiles(namesv, confsv, credsv) == Err::<
                        Seq<MetaV<ProfV>>,
                        ErrV,
                    >(ErrV::MissingCredentials(namesv[k as int])));
                    assert(e.deep_view() == ErrV::MissingCredentials(namesv[k as int]));
                    assert(namesv == merged_names(confsv, credsv));
                    assert(spec_merge(confsv, credsv) == Err::<Seq<MetaV<ProfV>>, ErrV>(
                        e.deep_view(),
                    ));
                }
                return Err(e);
            },
            Some(ci) => {
                let crd = &creds[ci];
                let (prod0, lock0, conf_data) = match find_conf_idx(confs, nm) {
                    Some(fi) => {
                        let cf = &confs[fi];
                        (cf.is_production, cf.is_locked, clone_conf_data(&cf.data))
                    },
                    None => (false, false, AwsConfigData::empty()),
                };
                let profile = WithAwsProfileMetadata {
                    name: nm.clone(),
                    is_production: prod0 || crd.is_production,
                    is_locked: lock0 || crd.is_locked,
                    data: AwsProfileData { conf: conf_data, cred: clone_cred_data(&crd.data) },
                };
                proof {
                    assert(profile.deep_view() =~= mk_profile(
                        namesv[k as int],
                        find_last_conf(confsv, namesv[k as int]),
                        find_last_cred(credsv, namesv[k as int])->Some_0,
                    ));
                }
                let ghost old_out = out.deep_view();
                out.push(profile);
                k = k + 1;
                proof {
                    assert(out.deep_view() =~= old_out.push(out.deep_view().last()));
                    if let Ok(ps) = build_profiles(namesv, confsv, credsv) {
                        let p0 = mk_profile(
                            suffix[0],
                            find_last_conf(confsv, suffix[0]),
                            find_last_cred(credsv, suffix[0])->Some_0,
                        );
                        if let Ok(rest1) = build_profiles(namesv.skip(k as int), confsv, credsv) {
                            assert(build_profiles(suffix, confsv, credsv) == Ok::<
                                Seq<MetaV<ProfV>>,
                                ErrV,
                            >(seq![p0] + rest1));
                            assert(old_out + (seq![p0] + rest1) =~= out.deep_view() + rest1);
                        }
                    }
                }
            },
        }
    }
    proof {
        assert(namesv.skip(nn as int) =~= Seq::<NameV>::empty());
        if let Ok(ps) = build_profiles(namesv, confsv, credsv) {
            assert(ps =~= out.deep_view());
        }
    }
    Ok(out)
}

/// Parse both files' texts and merge them into the unified profiles.
pub fn parse_profiles(conf_text: &str, cred_text: &str) -> (r: Result<Vec<AwsProfile>, AwsError>)
    ensures
        match r {
            Ok(ps) => spec_parse_profiles(conf_text@, cred_text@) == Ok::<
                Seq<MetaV<ProfV>>,
                ErrV,
            >(ps.deep_view()),
            Err(e) => spec_parse_profiles(conf_text@, cred_text@) == Err::<
                Seq<MetaV<ProfV>>,
                ErrV,
            >(e.deep_view()),
        },
{
    let confs = match parse_config(conf_text) {
        Ok(cs) => cs,
        Err(e) => {
            return Err(e);
        },
    };
    let creds = match parse_credentials(cred_text) {
        Ok(cs) => cs,
        Err(e) => {
            return Err(e);
        },
    };
    merge_profiles(&confs, &creds)
}

// ------------------------------------------------------------------
// Laws of the merge
// ------------------------------------------------------------------

/// Deduplication keeps exactly the members not yet seen.
pub proof fn lemma_dedup_membership(ns: Seq<NameV>, seen: Seq<NameV>)
    ensures
        forall|x: NameV| #[trigger]
            dedup(ns, seen).contains(x) <==> (ns.contains(x) && !seen.contains(x)),
    decreases ns.len(),
{
    if ns.len() == 0 {
        assert forall|x: NameV| #[trigger]
            dedup(ns, seen).contains(x) == (ns.contains(x) && !seen.contains(x)) by {
            if dedup(ns, seen).contains(x) {
                let w = choose|w: int| 0 <= w < dedup(ns, seen).len() && dedup(ns, seen)[w] == x;
                assert(false);
            }
            if ns.contains(x) {
                let w = choose|w: int| 0 <= w < ns.len() && ns[w] == x;
                assert(false);
            }
        }
    } else {
        let h = ns[0];
        let t = ns.drop_first();
        let d = dedup(ns, seen);
        if seen.contains(h) {
            lemma_dedup_membership(t, seen);
            assert forall|x: NameV| #[trigger]
                d.contains(x) == (ns.contains(x) && !seen.contains(x)) by {
                if d.contains(x) {
                    assert(dedup(t, seen).contains(x));
                    assert(t.contains(x) && !seen.contains(x));
                    let w = choose|w: int| 0 <= w < t.len() && t[w] == x;
                    assert(ns[w + 1] == x);
                    assert(ns.contains(x));
                }
                if ns.contains(x) && !seen.contains(x) {
                    // x cannot be h, which is in seen
                    let w = choose|w: int| 0 <= w < ns.len() && ns[w] == x;
                    assert(w > 0);
                    assert(t[w - 1] == x);
                    assert(t.contains(x));
                    assert(dedup(t, seen).contains(x));
                }
            }
        } else {
            lemma_dedup_membership(t, seen.push(h));
            let dt = dedup(t, seen.push(h));
            assert(d == seq![h] + dt);
            assert forall|x: NameV| #[trigger]
                d.contains(x) == (ns.contains(x) && !seen.contains(x)) by {
                if d.contains(x) {
                    let w = choose|w: int| 0 <= w < d.len() && d[w] == x;
                    if w == 0 {
                        assert(x == h);
                        assert(ns[0] == x);
                        assert(ns.contains(x));
                    } else {
                        assert(dt[w - 1] == x);
                        assert(dt.contains(x));
                        assert(t.contains(x) && !seen.push(h).contains(x));
                        let u = choose|u: int| 0 <= u < t.len() && t[u] == x;
                        assert(ns[u + 1] == x);
                        assert(ns.contains(x));
                        if seen.contains(x) {
                            let v = choose|v: int| 0 <= v < seen.len() && seen[v] == x;
                            assert(seen.push(h)[v] == x);
                            assert(seen.push(h).contains(x));
                        }
                    }
                }
                if ns.contains(x) && !seen.contains(x) {
                    if x == h {
                        assert(d[0] == x);
                        assert(d.contains(x));
                    } else {
                        let w = choose|w: int| 0 <= w < ns.len() && ns[w] == x;
                        assert(w > 0);
                        assert(t[w - 1] == x);
                        assert(t.contains(x));
                        if seen.push(h).contains(x) {
                            let v = choose|v: int|
                                0 <= v < seen.push(h).len() && seen.push(h)[v] == x;
                            assert(v < seen.len());
                            assert(seen[v] == x);
                            assert(seen.contains(x));
                        }
                        assert(dt.contains(x));
                        let u = choose|u: int| 0 <= u < dt.len() && dt[u] == x;
                        assert(d[u + 1] == x);
                        assert(d.contains(x));
                    }
                }
            }
        }
    }
}

/// `build_profiles` succeeds exactly when every listed name has a
/// credentials record, and then yields, in order, the merged profile of
/// each name; on failure the error names a listed name that lacks one.
pub proof fn lemma_build_profiles(names: Seq<NameV>, confs: Seq<MetaV<ConfV>>, creds: Seq<MetaV<CredV>>)
    ensures
        build_profiles(names, confs, creds) is Ok <==> (forall|i: int|
            0 <= i < names.len() ==> find_last_cred(creds, #[trigger] names[i]) is Some),
        build_profiles(names, confs, creds) matches Ok(ps) ==> {
            &&& ps.len() == names.len()
            &&& forall|i: int|
                0 <= i < names.len() ==> #[trigger] ps[i] == mk_profile(
                    names[i],
                    find_last_conf(confs, names[i]),
                    find_last_cred(creds, names[i])->Some_0,
                )
        },
        build_profiles(names, confs, creds) matches Err(e) ==> (e matches ErrV::MissingCredentials(
            n,
        ) && names.contains(n) && find_last_cred(creds, n) is None),
    decreases names.len(),
{
    if names.len() > 0 {
        let t = names.drop_first();
        lemma_build_profiles(t, confs, creds);
        assert(forall|i: int| 0 <= i < t.len() ==> #[trigger] t[i] == names[i + 1]);
        match find_last_cred(creds, names[0]) {
            None => {
                assert(names.contains(names[0]));
                assert(!(forall|i: int|
                    0 <= i < names.len() ==> find_last_cred(creds, #[trigger] names[i]) is Some))
                    by {
                    assert(find_last_cred(creds, names[0]) is None);
                }
            },
            Some(cr) => {
                match build_profiles(t, confs, creds) {
                    Err(e) => {
                        if let ErrV::MissingCredentials(n) = e {
                            let w = choose|w: int| 0 <= w < t.len() && t[w] == n;
                            assert(names[w + 1] == n);
                            assert(names.contains(n));
                        }
                        assert(!(forall|i: int|
                            0 <= i < names.len() ==> find_last_cred(
                                creds,
                                #[trigger] names[i],
                            ) is Some)) by {
                            let w = choose|w: int|
                                0 <= w < t.len() && find_last_cred(creds, #[trigger] t[w]) is None;
                            assert(find_last_cred(creds, names[w + 1]) is None);
                        }
                    },
                    Ok(ps) => {
                        let full = build_profiles(names, confs, creds);
                        assert(full is Ok);
                        let p0 = mk_profile(names[0], find_last_conf(confs, names[0]), cr);
                        assert(full->Ok_0 == seq![p0] + ps);
                        assert forall|i: int|
                            0 <= i < names.len() implies find_last_cred(
                            creds,
                            #[trigger] names[i],
                        ) is Some by {
                            if i > 0 {
                                assert(t[i - 1] == names[i]);
                                assert(find_last_cred(creds, t[i - 1]) is Some);
                            }
                        }
                        assert forall|i: int| 0 <= i < names.len() implies #[trigger] full->Ok_0[i]
                            == mk_profile(
                            names[i],
                            find_last_conf(confs, names[i]),
                            find_last_cred(creds, names[i])->Some_0,
                        ) by {
                            if i > 0 {
                                assert(full->Ok_0[i] == ps[i - 1]);
                                assert(t[i - 1] == names[i]);
                            }
                        }
                    },
                }
            },
        }
    } else {
        assert(build_profiles(names, confs, creds) is Ok);
    }
}

/// Merge requirement: a credentials entry with no config entry merges, its
/// config side defaulting to the empty record; merging fails exactly when
/// some merged name — in particular the name of a config entry with no
/// credentials entry — has no credentials record, and then the error is
/// `MissingCredentials` of such a name.
pub proof fn lemma_merge_requirement(confs: Seq<MetaV<ConfV>>, creds: Seq<MetaV<CredV>>)
    ensures
        spec_merge(confs, creds) is Ok <==> (forall|i: int|
            0 <= i < merged_names(confs, creds).len() ==> find_last_cred(
                creds,
                #[trigger] merged_names(confs, creds)[i],
            ) is Some),
        spec_merge(confs, creds) matches Ok(ps) ==> {
            &&& ps.len() == merged_names(confs, creds).len()
            &&& forall|i: int|
                0 <= i < ps.len() ==> #[trigger] ps[i] == mk_profile(
                    merged_names(confs, creds)[i],
                    find_last_conf(confs, merged_names(confs, creds)[i]),
                    find_last_cred(creds, merged_names(confs, creds)[i])->Some_0,
                )
            &&& forall|i: int|
                0 <= i < ps.len() && find_last_conf(confs, #[trigger] ps[i].name) is None ==> (
                ps[i].data.conf == empty_conf() && !ps[i].is_locked == !find_last_cred(
                    creds,
                    ps[i].name,
                )->Some_0.is_locked)
        },
        spec_merge(confs, creds) matches Err(e) ==> (e matches ErrV::MissingCredentials(n)
            && find_last_cred(creds, n) is None),
        (exists|j: int|
            0 <= j < confs.len() && find_last_cred(creds, #[trigger] confs[j].name) is None)
            ==> spec_merge(confs, creds) is Err,
{
    let names = merged_names(confs, creds);
    lemma_build_profiles(names, confs, creds);
    if let Ok(ps) = spec_merge(confs, creds) {
        assert forall|i: int|
            0 <= i < ps.len() && find_last_conf(confs, #[trigger] ps[i].name) is None implies (
        ps[i].data.conf == empty_conf() && !ps[i].is_locked == !find_last_cred(
            creds,
            ps[i].name,
        )->Some_0.is_locked) by {
            assert(ps[i] == mk_profile(
                names[i],
                find_last_conf(confs, names[i]),
                find_last_cred(creds, names[i])->Some_0,
            ));
        }
    }
    if exists|j: int|
        0 <= j < confs.len() && find_last_cred(creds, #[trigger] confs[j].name) is None {
        let j = choose|j: int|
            0 <= j < confs.len() && find_last_cred(creds, #[trigger] confs[j].name) is None;
        lemma_dedup_membership(conf_names(confs) + cred_names(creds), Seq::empty());
        let cn = confs[j].name;
        assert((conf_names(confs) + cred_names(creds))[j] == cn);
        assert((conf_names(confs) + cred_names(creds)).contains(cn));
        assert(!Seq::<NameV>::empty().contains(cn)) by {
            if Seq::<NameV>::empty().contains(cn) {
                let w = choose|w: int|
                    0 <= w < Seq::<NameV>::empty().len() && Seq::<NameV>::empty()[w] == cn;
            }
        }
        assert(names.contains(cn));
        let w = choose|w: int| 0 <= w < names.len() && names[w] == cn;
        if spec_merge(confs, creds) is Ok {
            assert(find_last_cred(creds, names[w]) is Some);
        }
    }
}

// ------------------------------------------------------------------
// The round-trip serializer, specified
// ------------------------------------------------------------------

/// The text a profile name is written as.
pub open spec fn name_text(n: NameV) -> Seq<char> {
    match n {
        NameV::Default => "default"@,
        NameV::Named(s) => s,
    }
}

/// The prefix locking applies to an entry's data lines.
pub open spec fn lock_prefix(locked: bool) -> Seq<char> {
    if locked {
        "# "@
    } else {
        Seq::empty()
    }
}

pub open spec fn comment_lines(cs: Seq<Seq<char>>) -> Seq<Seq<char>> {
    cs.map_values(|c: Seq<char>| "# "@ + c)
}

pub open spec fn production_lines(p: bool) -> Seq<Seq<char>> {
    if p {
        seq!["# production"@]
    } else {
        Seq::empty()
    }
}

pub open spec fn value_line(prefix: Seq<char>, k: Seq<char>, v: Seq<char>) -> Seq<char> {
    prefix + k + " = "@ + v
}

pub open spec fn opt_value_lines(prefix: Seq<char>, k: Seq<char>, v: Option<Seq<char>>) -> Seq<
    Seq<char>,
> {
    match v {
        None => Seq::empty(),
        Some(x) => seq![value_line(prefix, k, x)],
    }
}

pub open spec fn conf_header_line(n: NameV, locked: bool) -> Seq<char> {
    lock_prefix(locked) + (match n {
        NameV::Default => "[default]"@,
        NameV::Named(s) => "[profile "@ + s + "]"@,
    })
}

pub open spec fn cred_header_line(n: NameV, locked: bool) -> Seq<char> {
    lock_prefix(locked) + "["@ + name_text(n) + "]"@
}

/// The lines of one profile's config-file entry.
pub open spec fn conf_entry_lines(c: MetaV<ConfV>) -> Seq<Seq<char>> {
    comment_lines(c.data.comments) + production_lines(c.is_production) + seq![
        conf_header_line(c.name, c.is_locked),
    ] + opt_value_lines(lock_prefix(c.is_locked), "region"@, c.data.region) + opt_value_lines(
        lock_prefix(c.is_locked),
        "output"@,
        c.data.output,
    )
}

/// The lines of one profile's credentials-file entry: the required keys
/// always, then the optional ones that are present, in a fixed order.
pub open spec fn cred_entry_lines(c: MetaV<CredV>) -> Seq<Seq<char>> {
    let pfx = lock_prefix(c.is_locked);
    comment_lines(c.data.comments) + production_lines(c.is_production) + seq![
        cred_header_line(c.name, c.is_locked),
    ] + seq![value_line(pfx, "aws_access_key_id"@, c.data.aws_access_key_id)] + seq![
        value_line(pfx, "aws_secret_access_key"@, c.data.aws_secret_access_key),
    ] + opt_value_lines(pfx, "aws_session_token"@, c.data.aws_session_token) + opt_value_lines(
        pfx,
        "aws_session_expiration"@,
        c.data.aws_session_expiration,
    ) + opt_value_lines(pfx, "aws_security_token"@, c.data.aws_security_token) + opt_value_lines(
        pfx,
        "region"@,
        c.data.region,
    )
}

pub open spec fn conf_side(p: MetaV<ProfV>) -> MetaV<ConfV> {
    MetaV {
        name: p.name,
        is_production: p.is_production,
        is_locked: p.is_locked,
        data: p.data.conf,
    }
}

pub open spec fn cred_side(p: MetaV<ProfV>) -> MetaV<CredV> {
    MetaV {
        name: p.name,
        is_production: p.is_production,
        is_locked: p.is_locked,
        data: p.data.cred,
    }
}

/// The config file's lines after the first entry: each further entry is
/// preceded by one blank line.
pub open spec fn config_lines_rest(ps: Seq<MetaV<ProfV>>) -> Seq<Seq<char>>
    decreases ps.len(),
{
    if ps.len() == 0 {
        Seq::empty()
    } else {
        seq![Seq::<char>::empty()] + conf_entry_lines(conf_side(ps[0])) + config_lines_rest(
            ps.drop_first(),
        )
    }
}

pub open spec fn config_lines(ps: Seq<MetaV<ProfV>>) -> Seq<Seq<char>> {
    if ps.len() == 0 {
        Seq::empty()
    } else {
        conf_entry_lines(conf_side(ps[0])) + config_lines_rest(ps.drop_first())
    }
}

pub open spec fn credentials_lines_rest(ps: Seq<MetaV<ProfV>>) -> Seq<Seq<char>>
    decreases ps.len(),
{
    if ps.len() == 0 {
        Seq::empty()
    } else {
        seq![Seq::<char>::empty()] + cred_entry_lines(cred_side(ps[0])) + credentials_lines_rest(
            ps.drop_first(),
        )
    }
}

pub open spec fn credentials_lines(ps: Seq<MetaV<ProfV>>) -> Seq<Seq<char>> {
    if ps.len() == 0 {
        Seq::empty()
    } else {
        cred_entry_lines(cred_side(ps[0])) + credentials_lines_rest(ps.drop_first())
    }
}

/// The full text written back to the config file.
pub open spec fn spec_write_config(ps: Seq<MetaV<ProfV>>) -> Seq<char> {
    crate::text::spec_unlines(config_lines(ps))
}

/// The full text written back to the credentials file.
pub open spec fn spec_write_credentials(ps: Seq<MetaV<ProfV>>) -> Seq<char> {
    crate::text::spec_unlines(credentials_lines(ps))
}

// ------------------------------------------------------------------
// The round-trip serializer, executed
// ------------------------------------------------------------------

/// Append one full line: the text and a newline.
fn push_line(out: String, line: &str) -> (r: String)
    ensures
        r@ == out@ + line@ + seq!['\n'],
{
    let mut out = out;
    out.append(line);
    out.append("\n");
    proof {
        crate::text::lemma_nl();
    }
    out
}

/// Append the comment lines of an entry.
fn push_comments(out: String, comments: &Vec<String>) -> (r: String)
    ensures
        r@ == out@ + crate::text::spec_unlines(comment_lines(comments.deep_view())),
{
    let ghost base = out@;
    let ghost cv = comments.deep_view();
    let n = comments.len();
    let mut out = out;
    let mut i: usize = 0;
    proof {
        assert(comment_lines(cv.take(0)) =~= Seq::<Seq<char>>::empty());
        assert(base + crate::text::spec_unlines(comment_lines(cv.take(0))) =~= base);
    }
    while i < n
        invariant
            0 <= i <= n,
            n == comments.len(),
            cv == comments.deep_view(),
            out@ == base + crate::text::spec_unlines(comment_lines(cv.take(i as int))),
        decreases n - i,
    {
        let mut o = out;
        o.append("# ");
        o.append(comments[i].as_str());
        o.append("\n");
        proof {
            crate::text::lemma_nl();
            let lines_i = comment_lines(cv.take(i as int));
            let line = "# "@ + cv[i as int];
            assert(comment_lines(cv.take(i as int + 1)) =~= lines_i + seq![line]);
            crate::text::lemma_unlines_concat(lines_i, seq![line]);
            crate::text::lemma_unlines_one(line);
            assert(o@ =~= base + crate::text::spec_unlines(comment_lines(cv.take(i as int + 1))));
        }
        out = o;
        i = i + 1;
    }
    proof {
        assert(cv.take(n as int) =~= cv);
    }
    out
}

/// Append a `key = value` line under the locking prefix, when the value is
/// present.
fn push_opt_value(out: String, locked: bool, key: &str, v: &Option<String>) -> (r: String)
    ensures
        r@ == out@ + crate::text::spec_unlines(
            opt_value_lines(lock_prefix(locked), key@, v.deep_view()),
        ),
{
    match v {
        None => {
            proof {
                assert(out@ + crate::text::spec_unlines(
                    opt_value_lines(lock_prefix(locked), key@, v.deep_view()),
                ) =~= out@);
            }
            out
        },
        Some(x) => {
            let mut o = out;
            if locked {
                o.append("# ");
            }
            o.append(key);
            o.append(" = ");
            o.append(x.as_str());
            o.append("\n");
            proof {
                crate::text::lemma_nl();
                let line = value_line(lock_prefix(locked), key@, x@);
                crate::text::lemma_unlines_one(line);
                assert(o@ =~= out@ + crate::text::spec_unlines(
                    opt_value_lines(lock_prefix(locked), key@, v.deep_view()),
                ));
            }
            o
        },
    }
}

/// Append a required `key = value` line under the locking prefix.
fn push_value(out: String, locked: bool, key: &str, x: &String) -> (r: String)
    ensures
        r@ == out@ + crate::text::spec_unlines(seq![value_line(lock_prefix(locked), key@, x@)]),
{
    let mut o = out;
    if locked {
        o.append("# ");
    }
    o.append(key);
    o.append(" = ");
    o.append(x.as_str());
    o.append("\n");
    proof {
        crate::text::lemma_nl();
        crate::text::lemma_unlines_one(value_line(lock_prefix(locked), key@, x@));
        assert(o@ =~= out@ + crate::text::spec_unlines(
            seq![value_line(lock_prefix(locked), key@, x@)],
        ));
    }
    o
}

/// Append the preamble of an entry: its comments and, if flagged, the
/// production marker line.
fn push_preamble(out: String, comments: &Vec<String>, is_production: bool) -> (r: String)
    ensures
        r@ == out@ + crate::text::spec_unlines(
            comment_lines(comments.deep_view()) + production_lines(is_production),
        ),
{
    let ghost base = out@;
    let mut out = push_comments(out, comments);
    if is_production {
        out = push_line(out, "# production");
    }
    proof {
        crate::text::lemma_unlines_concat(
            comment_lines(comments.deep_view()),
            production_lines(is_production),
        );
        if is_production {
            crate::text::lemma_unlines_one("# production"@);
        }
        assert(out@ =~= base + crate::text::spec_unlines(
            comment_lines(comments.deep_view()) + production_lines(is_production),
        ));
    }
    out
}

/// Append the config-file header line of a profile.
fn push_conf_header(out: String, name: &ProfileName, locked: bool) -> (r: String)
    ensures
        r@ == out@ + crate::text::spec_unlines(seq![conf_header_line(name.deep_view(), locked)]),
{
    let mut o = out;
    if locked {
        o.append("# ");
    }
    match name {
        ProfileName::Default => {
            o.append("[default]");
        },
        ProfileName::Named(s) => {
            o.append("[profile ");
            o.append(s.as_str());
            o.append("]");
        },
    }
    o.append("\n");
    proof {
        crate::text::lemma_nl();
        crate::text::lemma_unlines_one(conf_header_line(name.deep_view(), locked));
        assert(o@ =~= out@ + crate::text::spec_unlines(
            seq![conf_header_line(name.deep_view(), locked)],
        ));
    }
    o
}

/// Append the credentials-file header line of a profile.
fn push_cred_header(out: String, name: &ProfileName, locked: bool) -> (r: String)
    ensures
        r@ == out@ + crate::text::spec_unlines(seq![cred_header_line(name.deep_view(), locked)]),
{
    let mut o = out;
    if locked {
        o.append("# ");
    }
    o.append("[");
    match name {
        ProfileName::Default => {
            o.append("default");
        },
        ProfileName::Named(s) => {
            o.append(s.as_str());
        },
    }
    o.append("]");
    o.append("\n");
    proof {
        crate::text::lemma_nl();
        crate::text::lemma_unlines_one(cred_header_line(name.deep_view(), locked));
        assert(o@ =~= out@ + crate::text::spec_unlines(
            seq![cred_header_line(name.deep_view(), locked)],
        ));
    }
    o
}

/// Append one profile's config-file entry.
#[verifier::rlimit(60)]
fn push_conf_entry(out: String, name: &ProfileName, is_production: bool, is_locked: bool, d: &AwsConfigData) -> (r: String)
    ensures
        r@ == out@ + crate::text::spec_unlines(
            conf_entry_lines(
                MetaV {
                    name: name.deep_view(),
                    is_production,
                    is_locked,
                    data: d.deep_view(),
                },
            ),
        ),
{
    let ghost base = out@;
    let ghost meta = MetaV {
        name: name.deep_view(),
        is_production,
        is_locked,
        data: d.deep_view(),
    };
    let ghost done1 = comment_lines(meta.data.comments) + production_lines(is_production);
    let ghost done2 = done1 + seq![conf_header_line(meta.name, is_locked)];
    let ghost reg = opt_value_lines(lock_prefix(is_locked), "region"@, meta.data.region);
    let ghost done3 = done2 + reg;
    let out = push_preamble(out, &d.comments, is_production);
    let out = push_conf_header(out, name, is_locked);
    proof {
        crate::text::lemma_unlines_concat(done1, seq![conf_header_line(meta.name, is_locked)]);
        assert(out@ =~= base + crate::text::spec_unlines(done2));
    }
    let out = push_opt_value(out, is_locked, "region", &d.region);
    proof {
        crate::text::lemma_unlines_concat(done2, reg);
        assert(out@ =~= base + crate::text::spec_unlines(done3));
    }
    let out = push_opt_value(out, is_locked, "output", &d.output);
    proof {
        crate::text::lemma_unlines_concat(
            done3,
            opt_value_lines(lock_prefix(is_locked), "output"@, meta.data.output),
        );
        assert(out@ =~= base + crate::text::spec_unlines(conf_entry_lines(meta)));
    }
    out
}

/// Append one profile's credentials-file entry.
#[verifier::rlimit(100)]
fn push_cred_entry(out: String, name: &ProfileName, is_production: bool, is_locked: bool, d: &AwsCredentialData) -> (r: String)
    ensures
        r@ == out@ + crate::text::spec_unlines(
            cred_entry_lines(
                MetaV {
                    name: name.deep_view(),
                    is_production,
                    is_locked,
                    data: d.deep_view(),
                },
            ),
        ),
{
    let ghost base = out@;
    let ghost meta = MetaV {
        name: name.deep_view(),
        is_production,
        is_locked,
        data: d.deep_view(),
    };
    let ghost pfx = lock_prefix(is_locked);
    let ghost done1 = comment_lines(meta.data.comments) + production_lines(is_production);
    let ghost done2 = done1 + seq![cred_header_line(meta.name, is_locked)];
    let ghost done3 = done2 + seq![
        value_line(pfx, "aws_access_key_id"@, meta.data.aws_access_key_id),
    ];
    let ghost done4 = done3 + seq![
        value_line(pfx, "aws_secret_access_key"@, meta.data.aws_secret_access_key),
    ];
    let ghost l5 = opt_value_lines(pfx, "aws_session_token"@, meta.data.aws_session_token);
    let ghost done5 = done4 + l5;
    let ghost l6 = opt_value_lines(
        pfx,
        "aws_session_expiration"@,
        meta.data.aws_session_expiration,
    );
    let ghost done6 = done5 + l6;
    let ghost l7 = opt_value_lines(pfx, "aws_security_token"@, meta.data.aws_security_token);
    let ghost done7 = done6 + l7;
    let out = push_preamble(out, &d.comments, is_production);
    let out = push_cred_header(out, name, is_locked);
    proof {
        crate::text::lemma_unlines_concat(done1, seq![cred_header_line(meta.name, is_locked)]);
        assert(out@ =~= base + crate::text::spec_unlines(done2));
    }
    let out = push_value(out, is_locked, "aws_access_key_id", &d.aws_access_key_id);
    proof {
        crate::text::lemma_unlines_concat(
            done2,
            seq![value_line(pfx, "aws_access_key_id"@, meta.data.aws_access_key_id)],
        );
        assert(out@ =~= base + crate::text::spec_unlines(done3));
    }
    let out = push_value(out, is_locked, "aws_secret_access_key", &d.aws_secret_access_key);
    proof {
        crate::text::lemma_unlines_concat(
            done3,
            seq![value_line(pfx, "aws_secret_access_key"@, meta.data.aws_secret_access_key)],
        );
        assert(out@ =~= base + crate::text::spec_unlines(done4));
    }
    let out = push_opt_value(out, is_locked, "aws_session_token", &d.aws_session_token);
    proof {
        crate::text::lemma_unlines_concat(done4, l5);
        assert(out@ =~= base + crate::text::spec_unlines(done5));
    }
    let out = push_opt_value(out, is_locked, "aws_session_expiration", &d.aws_session_expiration);
    proof {
        crate::text::lemma_unlines_concat(done5, l6);
        assert(out@ =~= base + crate::text::spec_unlines(done6));
    }
    let out = push_opt_value(out, is_locked, "aws_security_token", &d.aws_security_token);
    proof {
        crate::text::lemma_unlines_concat(done6, l7);
        assert(out@ =~= base + crate::text::spec_unlines(done7));
    }
    let out = push_opt_value(out, is_locked, "region", &d.region);
    proof {
        crate::text::lemma_unlines_concat(
            done7,
            opt_value_lines(pfx, "region"@, meta.data.region),
        );
        assert(out@ =~= base + crate::text::spec_unlines(cred_entry_lines(meta)));
    }
    out
}

/// Render the whole config file's text.
fn render_config(profiles: &Vec<AwsProfile>) -> (r: String)
    ensures
        r@ == spec_write_config(profiles.deep_view()),
{
    let ghost pv = profiles.deep_view();
    let n = profiles.len();
    let mut out = String::new();
    if n == 0 {
        return out;
    }
    let p0 = &profiles[0];
    out = push_conf_entry(out, &p0.name, p0.is_production, p0.is_locked, &p0.data.conf);
    proof {
        assert(conf_side(pv[0]) =~= MetaV {
            name: pv[0].name,
            is_production: pv[0].is_production,
            is_locked: pv[0].is_locked,
            data: pv[0].data.conf,
        });
        crate::text::lemma_unlines_concat(
            conf_entry_lines(conf_side(pv[0])),
            config_lines_rest(pv.skip(1)),
        );
        assert(pv.drop_first() =~= pv.skip(1));
    }
    let mut i: usize = 1;
    while i < n
        invariant
            1 <= i <= n,
            n == profiles.len(),
            pv == profiles.deep_view(),
            spec_write_config(pv) == out@ + crate::text::spec_unlines(
                config_lines_rest(pv.skip(i as int)),
            ),
        decreases n - i,
    {
        let ghost suffix = pv.skip(i as int);
        let mut o = out;
        o.append("\n");
        let p = &profiles[i];
        let o2 = push_conf_entry(o, &p.name, p.is_production, p.is_locked, &p.data.conf);
        proof {
            crate::text::lemma_nl();
            assert(suffix[0] == pv[i as int]);
            assert(suffix.drop_first() =~= pv.skip(i as int + 1));
            assert(conf_side(pv[i as int]) =~= MetaV {
                name: pv[i as int].name,
                is_production: pv[i as int].is_production,
                is_locked: pv[i as int].is_locked,
                data: pv[i as int].data.conf,
            });
            crate::text::lemma_unlines_one(Seq::<char>::empty());
            crate::text::lemma_unlines_concat(
                seq![Seq::<char>::empty()],
                conf_entry_lines(conf_side(pv[i as int])) + config_lines_rest(
                    pv.skip(i as int + 1),
                ),
            );
            crate::text::lemma_unlines_concat(
                conf_entry_lines(conf_side(pv[i as int])),
                config_lines_rest(pv.skip(i as int + 1)),
            );
            assert(config_lines_rest(suffix) =~= seq![Seq::<char>::empty()] + (conf_entry_lines(
                conf_side(pv[i as int]),
            ) + config_lines_rest(pv.skip(i as int + 1))));
            assert(Seq::<char>::empty() + seq!['\n'] =~= seq!['\n']);
            assert(spec_write_config(pv) =~= o2@ + crate::text::spec_unlines(
                config_lines_rest(pv.skip(i as int + 1)),
            ));
        }
        out = o2;
        i = i + 1;
    }
    proof {
        assert(pv.skip(n as int) =~= Seq::<MetaV<ProfV>>::empty());
        assert(spec_write_config(pv) =~= out@);
    }
    out
}

/// Render the whole credentials file's text.
fn render_credentials(profiles: &Vec<AwsProfile>) -> (r: String)
    ensures
        r@ == spec_write_credentials(profiles.deep_view()),
{
    let ghost pv = profiles.deep_view();
    let n = profiles.len();
    let mut out = String::new();
    if n == 0 {
        return out;
    }
    let p0 = &profiles[0];
    out = push_cred_entry(out, &p0.name, p0.is_production, p0.is_locked, &p0.data.cred);
    proof {
        assert(cred_side(pv[0]) =~= MetaV {
            name: pv[0].name,
            is_production: pv[0].is_production,
            is_locked: pv[0].is_locked,
            data: pv[0].data.cred,
        });
        crate::text::lemma_unlines_concat(
            cred_entry_lines(cred_side(pv[0])),
            credentials_lines_rest(pv.skip(1)),
        );
        assert(pv.drop_first() =~= pv.skip(1));
    }
    let mut i: usize = 1;
    while i < n
        invariant
            1 <= i <= n,
            n == profiles.len(),
            pv == profiles.deep_view(),
            spec_write_credentials(pv) == out@ + crate::text::spec_unlines(
                credentials_lines_rest(pv.skip(i as int)),
            ),
        decreases n - i,
    {
        let ghost suffix = pv.skip(i as int);
        let mut o = out;
        o.append("\n");
        let p = &profiles[i];
        let o2 = push_cred_entry(o, &p.name, p.is_production, p.is_locked, &p.data.cred);
        proof {
            crate::text::lemma_nl();
            assert(suffix[0] == pv[i as int]);
            assert(suffix.drop_first() =~= pv.skip(i as int + 1));
            assert(cred_side(pv[i as int]) =~= MetaV {
                name: pv[i as int].name,
                is_production: pv[i as int].is_production,
                is_locked: pv[i as int].is_locked,
                data: pv[i as int].data.cred,
            });
            crate::text::lemma_unlines_one(Seq::<char>::empty());
            crate::text::lemma_unlines_concat(
                seq![Seq::<char>::empty()],
                cred_entry_lines(cred_side(pv[i as int])) + credentials_lines_rest(
                    pv.skip(i as int + 1),
                ),
            );
            crate::text::lemma_unlines_concat(
                cred_entry_lines(cred_side(pv[i as int])),
                credentials_lines_rest(pv.skip(i as int + 1)),
            );
            assert(credentials_lines_rest(suffix) =~= seq![Seq::<char>::empty()] + (
            cred_entry_lines(cred_side(pv[i as int])) + credentials_lines_rest(
                pv.skip(i as int + 1),
            )));
            assert(Seq::<char>::empty() + seq!['\n'] =~= seq!['\n']);
            assert(spec_write_credentials(pv) =~= o2@ + crate::text::spec_unlines(
                credentials_lines_rest(pv.skip(i as int + 1)),
            ));
        }
        out = o2;
        i = i + 1;
    }
    proof {
        assert(pv.skip(n as int) =~= Seq::<MetaV<ProfV>>::empty());
        assert(spec_write_credentials(pv) =~= out@);
    }
    out
}

/// The environment entries a child process receives for one unlocked
/// profile: the profile name when it is a named one, the required keys,
/// the session token when present, and the region — the config-file one
/// when present, else the credentials-file one.
pub open spec fn spec_credential_env(p: MetaV<ProfV>) -> Seq<(Seq<char>, Seq<char>)> {
    (match p.name {
        NameV::Named(s) => seq![("AWS_PROFILE"@, s)],
        NameV::Default => Seq::empty(),
    }) + seq![("AWS_ACCESS_KEY_ID"@, p.data.cred.aws_access_key_id)] + seq![
        ("AWS_SECRET_ACCESS_KEY"@, p.data.cred.aws_secret_access_key),
    ] + (match p.data.cred.aws_session_token {
        Some(t) => seq![("AWS_SESSION_TOKEN"@, t)],
        None => Seq::empty(),
    }) + (match p.data.conf.region {
        Some(r) => seq![("AWS_REGION"@, r)],
        None => match p.data.cred.region {
            Some(r) => seq![("AWS_REGION"@, r)],
            None => Seq::empty(),
        },
    })
}

/// Compute the child-process environment entries of one profile.
pub fn credential_env(p: &AwsProfile) -> (r: Vec<(String, String)>)
    ensures
        r.deep_view() == spec_credential_env(p.deep_view()),
{
    let mut out: Vec<(String, String)> = Vec::new();
    match &p.name {
        ProfileName::Named(s) => {
            out.push(("AWS_PROFILE".to_owned(), s.clone()));
        },
        ProfileName::Default => {},
    }
    out.push(("AWS_ACCESS_KEY_ID".to_owned(), p.data.cred.aws_access_key_id.clone()));
    out.push(("AWS_SECRET_ACCESS_KEY".to_owned(), p.data.cred.aws_secret_access_key.clone()));
    match &p.data.cred.aws_session_token {
        Some(t) => {
            out.push(("AWS_SESSION_TOKEN".to_owned(), t.clone()));
        },
        None => {},
    }
    match &p.data.conf.region {
        Some(r) => {
            out.push(("AWS_REGION".to_owned(), r.clone()));
        },
        None => {
            match &p.data.cred.region {
                Some(r) => {
                    out.push(("AWS_REGION".to_owned(), r.clone()));
                },
                None => {},
            }
        },
    }
    proof {
        assert(out.deep_view() =~= spec_credential_env(p.deep_view()));
    }
    out
}

/// Serialize the profiles back to the two files' texts, locking applied.
pub fn write_profiles(profiles: &Vec<AwsProfile>) -> (r: (String, String))
    ensures
        r.0@ == spec_write_config(profiles.deep_view()),
        r.1@ == spec_write_credentials(profiles.deep_view()),
{
    (render_config(profiles), render_credentials(profiles))
}

} // verus!
