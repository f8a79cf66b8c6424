//! The lock engine's state transitions: computing which targets are
//! unknown or production-flagged, switching the locked flag of a target
//! set, and the scope-guard value whose construction unlocks and whose
//! release re-locks.
//!
//! Every operation is pure over the two files' texts: it parses, decides,
//! and returns the rewritten texts; the caller performs the file I/O.

use vstd::prelude::*;

use crate::aws_profile::{
    names_contain, parse_profiles, spec_parse_profiles, spec_write_config, spec_write_credentials,
    write_profiles, AwsProfile, MetaV, NameV, ProfV, ProfileName, WithAwsProfileMetadata,
};
use crate::error::{AwsError, ErrV};

verus! {

// ------------------------------------------------------------------
// Lock-state transitions, specified
// ------------------------------------------------------------------

/// The names of the profiles, in order.
pub open spec fn profile_names(ps: Seq<MetaV<ProfV>>) -> Seq<NameV> {
    ps.map_values(|p: MetaV<ProfV>| p.name)
}

/// The first profile of the given name, if any.
pub open spec fn find_profile(ps: Seq<MetaV<ProfV>>, n: NameV) -> Option<MetaV<ProfV>>
    decreases ps.len(),
{
    if ps.len() == 0 {
        None
    } else if ps[0].name == n {
        Some(ps[0])
    } else {
        find_profile(ps.drop_first(), n)
    }
}

/// The targets, in order, that name no profile.
pub open spec fn spec_unknown(targets: Seq<NameV>, ps: Seq<MetaV<ProfV>>) -> Seq<NameV>
    decreases targets.len(),
{
    if targets.len() == 0 {
        Seq::empty()
    } else {
        let rest = spec_unknown(targets.drop_first(), ps);
        if find_profile(ps, targets[0]) is Some {
            rest
        } else {
            seq![targets[0]] + rest
        }
    }
}

/// The targets, in order, whose profile exists and is production-flagged.
pub open spec fn spec_production_targets(targets: Seq<NameV>, ps: Seq<MetaV<ProfV>>) -> Seq<NameV>
    decreases targets.len(),
{
    if targets.len() == 0 {
        Seq::empty()
    } else {
        let rest = spec_production_targets(targets.drop_first(), ps);
        if find_profile(ps, targets[0]) matches Some(p) && p.is_production {
            seq![targets[0]] + rest
        } else {
            rest
        }
    }
}

/// Set the locked flag of every profile whose name is targeted; every other
/// profile is untouched.
pub open spec fn spec_set_lock(
    ps: Seq<MetaV<ProfV>>,
    targets: Seq<NameV>,
    locked: bool,
) -> Seq<MetaV<ProfV>> {
    ps.map_values(
        |p: MetaV<ProfV>|
            if targets.contains(p.name) {
                MetaV { is_locked: locked, ..p }
            } else {
                p
            },
    )
}

/// One read-modify-write cycle over the two files' texts: parse, check the
/// targets, switch the locked flag, and serialize.
pub open spec fn spec_modify(
    conf: Seq<char>,
    cred: Seq<char>,
    targets: Seq<NameV>,
    error_if_not_exist: bool,
    warn_on_production: bool,
    production_confirmed: bool,
    lock: bool,
) -> Result<(Seq<MetaV<ProfV>>, Seq<char>, Seq<char>), ErrV> {
    match spec_parse_profiles(conf, cred) {
        Err(e) => Err(e),
        Ok(ps) => if error_if_not_exist && spec_unknown(targets, ps).len() > 0 {
            Err(ErrV::UnknownProfiles(spec_unknown(targets, ps)))
        } else if warn_on_production && spec_production_targets(targets, ps).len() > 0
            && !production_confirmed {
            Err(ErrV::UserCancelled)
        } else {
            let ps2 = spec_set_lock(ps, targets, lock);
            Ok((ps2, spec_write_config(ps2), spec_write_credentials(ps2)))
        },
    }
}

/// The targeted profiles split into the locked and the unlocked ones, in
/// profile order.
pub open spec fn spec_status_names(
    ps: Seq<MetaV<ProfV>>,
    targets: Seq<NameV>,
    want_locked: bool,
) -> Seq<NameV>
    decreases ps.len(),
{
    if ps.len() == 0 {
        Seq::empty()
    } else {
        let rest = spec_status_names(ps.drop_first(), targets, want_locked);
        if targets.contains(ps[0].name) && ps[0].is_locked == want_locked {
            seq![ps[0].name] + rest
        } else {
            rest
        }
    }
}

pub open spec fn spec_check_status(conf: Seq<char>, cred: Seq<char>, targets: Seq<NameV>) -> Result<
    (Seq<NameV>, Seq<NameV>),
    ErrV,
> {
    match spec_parse_profiles(conf, cred) {
        Err(e) => Err(e),
        Ok(ps) => if spec_unknown(targets, ps).len() > 0 {
            Err(ErrV::UnknownProfiles(spec_unknown(targets, ps)))
        } else {
            Ok((spec_status_names(ps, targets, true), spec_status_names(ps, targets, false)))
        },
    }
}

// ------------------------------------------------------------------
// Laws of the lock transition
// ------------------------------------------------------------------

/// Switching the locked flag touches exactly the targeted profiles: a
/// targeted profile gets the new flag and keeps every other field, an
/// untargeted profile is unchanged.
pub proof fn lemma_set_lock_effect(ps: Seq<MetaV<ProfV>>, targets: Seq<NameV>, locked: bool)
    ensures
        spec_set_lock(ps, targets, locked).len() == ps.len(),
        forall|i: int|
            0 <= i < ps.len() && targets.contains(ps[i].name) ==> #[trigger] spec_set_lock(
                ps,
                targets,
                locked,
            )[i] == (MetaV { is_locked: locked, ..ps[i] }),
        forall|i: int|
            0 <= i < ps.len() && !targets.contains(ps[i].name) ==> #[trigger] spec_set_lock(
                ps,
                targets,
                locked,
            )[i] == ps[i],
{
}

/// Toggling is idempotent in its last step: a second lock-status change on
/// the same target set overrides the first, so locking then unlocking (or
/// the reverse) restores every untargeted profile exactly and leaves every
/// targeted profile with the final flag and its original data.
pub proof fn lemma_lock_toggle(ps: Seq<MetaV<ProfV>>, targets: Seq<NameV>, a: bool, b: bool)
    ensures
        spec_set_lock(spec_set_lock(ps, targets, a), targets, b) == spec_set_lock(ps, targets, b),
{
    let mid = spec_set_lock(ps, targets, a);
    assert forall|i: int| 0 <= i < ps.len() implies spec_set_lock(mid, targets, b)[i]
        == spec_set_lock(ps, targets, b)[i] by {
        assert(mid[i].name == ps[i].name);
    }
    assert(spec_set_lock(spec_set_lock(ps, targets, a), targets, b) =~= spec_set_lock(
        ps,
        targets,
        b,
    ));
}

/// Idempotent lock toggling: locking then unlocking the same target set,
/// with no other change in between, leaves every untargeted profile
/// exactly as it was, and every targeted profile unlocked with its
/// original data.
pub proof fn lemma_lock_unlock_restores(ps: Seq<MetaV<ProfV>>, targets: Seq<NameV>)
    ensures
        ({
            let r = spec_set_lock(spec_set_lock(ps, targets, true), targets, false);
            &&& r.len() == ps.len()
            &&& forall|i: int|
                0 <= i < ps.len() && !targets.contains(#[trigger] ps[i].name) ==> r[i] == ps[i]
            &&& forall|i: int|
                0 <= i < ps.len() && targets.contains(#[trigger] ps[i].name) ==> r[i] == (MetaV {
                    is_locked: false,
                    ..ps[i]
                })
        }),
{
    lemma_lock_toggle(ps, targets, true, false);
    lemma_set_lock_effect(ps, targets, false);
}

/// Guard safety: a release (a re-lock of the targets over freshly parsed
/// texts) leaves every targeted profile locked and every other profile
/// exactly as it was parsed.
pub proof fn lemma_relock_safety(conf: Seq<char>, cred: Seq<char>, targets: Seq<NameV>)
    ensures
        spec_modify(conf, cred, targets, false, false, false, true) matches Ok((ps2, c2, r2))
            ==> {
            &&& spec_parse_profiles(conf, cred) matches Ok(ps)
            &&& ps2.len() == ps.len()
            &&& forall|i: int|
                0 <= i < ps2.len() && targets.contains(#[trigger] ps2[i].name) ==> ps2[i].is_locked
            &&& forall|i: int|
                0 <= i < ps2.len() && !targets.contains(#[trigger] ps2[i].name) ==> ps2[i] == ps[i]
        },
{
    if let Ok(ps) = spec_parse_profiles(conf, cred) {
        lemma_set_lock_effect(ps, targets, true);
        let ps2 = spec_set_lock(ps, targets, true);
        assert forall|i: int|
            0 <= i < ps2.len() && targets.contains(#[trigger] ps2[i].name) implies ps2[i].is_locked by {
            assert(ps2[i].name == ps[i].name);
        }
        assert forall|i: int|
            0 <= i < ps2.len() && !targets.contains(#[trigger] ps2[i].name) implies ps2[i]
            == ps[i] by {
            assert(ps2[i].name == ps[i].name);
        }
    }
}

/// Unknown-target rejection: when the check is demanded and some target
/// names no profile, the cycle fails with exactly the unknown names and
/// produces no text.
pub proof fn lemma_unknown_rejection(
    conf: Seq<char>,
    cred: Seq<char>,
    targets: Seq<NameV>,
    warn_on_production: bool,
    production_confirmed: bool,
    lock: bool,
)
    ensures
        (spec_parse_profiles(conf, cred) matches Ok(ps) && spec_unknown(targets, ps).len() > 0)
            ==> spec_modify(
            conf,
            cred,
            targets,
            true,
            warn_on_production,
            production_confirmed,
            lock,
        ) == Err::<(Seq<MetaV<ProfV>>, Seq<char>, Seq<char>), ErrV>(
            ErrV::UnknownProfiles(spec_unknown(targets, spec_parse_profiles(conf, cred)->Ok_0)),
        ),
{
}

// ------------------------------------------------------------------
// Lock-state transitions, executed
// ------------------------------------------------------------------

/// Index of the first profile of the given name, if any.
fn find_profile_idx(profiles: &Vec<AwsProfile>, n: &ProfileName) -> (r: Option<usize>)
    ensures
        match r {
            Some(i) => i < profiles.len() && find_profile(profiles.deep_view(), n.deep_view())
                == Some(profiles.deep_view()[i as int]),
            None => find_profile(profiles.deep_view(), n.deep_view()) is None,
        },
{
    let len = profiles.len();
    let mut i: usize = 0;
    while i < len
        invariant
            0 <= i <= len,
            len == profiles.len(),
            forall|u: int| 0 <= u < i ==> profiles.deep_view()[u].name != n.deep_view(),
        decreases len - i,
    {
        if profiles[i].name == *n {
            proof {
                lemma_find_profile_at(profiles.deep_view(), n.deep_view(), i as int);
            }
            return Some(i);
        }
        i = i + 1;
    }
    proof {
        lemma_find_profile_none(profiles.deep_view(), n.deep_view());
    }
    None
}

proof fn lemma_find_profile_at(ps: Seq<MetaV<ProfV>>, n: NameV, i: int)
    requires
        0 <= i < ps.len(),
        ps[i].name == n,
        forall|u: int| 0 <= u < i ==> ps[u].name != n,
    ensures
        find_profile(ps, n) == Some(ps[i]),
    decreases ps.len(),
{
    if i > 0 {
        assert forall|u: int| 0 <= u < i - 1 implies ps.drop_first()[u].name != n by {
            assert(ps.drop_first()[u] == ps[u + 1]);
        }
        assert(ps.drop_first()[i - 1] == ps[i]);
        lemma_find_profile_at(ps.drop_first(), n, i - 1);
    }
}

proof fn lemma_find_profile_none(ps: Seq<MetaV<ProfV>>, n: NameV)
    requires
        forall|u: int| 0 <= u < ps.len() ==> ps[u].name != n,
    ensures
        find_profile(ps, n) is None,
    decreases ps.len(),
{
    if ps.len() > 0 {
        assert forall|u: int| 0 <= u < ps.drop_first().len() implies ps.drop_first()[u].name
            != n by {
            assert(ps.drop_first()[u] == ps[u + 1]);
        }
        lemma_find_profile_none(ps.drop_first(), n);
    }
}

/// The target names that exist in no profile, in target order.
pub fn unknown_profiles(targets: &Vec<ProfileName>, profiles: &Vec<AwsProfile>) -> (r: Vec<
    ProfileName,
>)
    ensures
        r.deep_view() == spec_unknown(targets.deep_view(), profiles.deep_view()),
{
    let ghost tv = targets.deep_view();
    let ghost pv = profiles.deep_view();
    let n = targets.len();
    let mut out: Vec<ProfileName> = Vec::new();
    let mut i: usize = 0;
    proof {
        assert(tv.skip(0) =~= tv);
        assert(out.deep_view() =~= Seq::<NameV>::empty());
        assert(Seq::<NameV>::empty() + spec_unknown(tv, pv) =~= spec_unknown(tv, pv));
    }
    while i < n
        invariant
            0 <= i <= n,
            n == targets.len(),
            tv == targets.deep_view(),
            pv == profiles.deep_view(),
            spec_unknown(tv, pv) == out.deep_view() + spec_unknown(tv.skip(i as int), pv),
        decreases n - i,
    {
        let ghost suffix = tv.skip(i as int);
        proof {
            assert(suffix[0] == tv[i as int]);
            assert(suffix.drop_first() =~= tv.skip(i as int + 1));
        }
        match find_profile_idx(profiles, &targets[i]) {
            Some(_) => {},
            None => {
                let ghost old_out = out.deep_view();
                out.push(targets[i].clone());
                proof {
                    assert(out.deep_view() =~= old_out.push(tv[i as int]));
                    assert(old_out + (seq![tv[i as int]] + spec_unknown(
                        tv.skip(i as int + 1),
                        pv,
                    )) =~= out.deep_view() + spec_unknown(tv.skip(i as int + 1), pv));
                }
            },
        }
        i = i + 1;
    }
    proof {
        assert(tv.skip(n as int) =~= Seq::<NameV>::empty());
        assert(spec_unknown(tv, pv) =~= out.deep_view());
    }
    out
}

/// The target names whose profile exists and is production-flagged, in
/// target order.
pub fn production_targets(targets: &Vec<ProfileName>, profiles: &Vec<AwsProfile>) -> (r: Vec<
    ProfileName,
>)
    ensures
        r.deep_view() == spec_production_targets(targets.deep_view(), profiles.deep_view()),
{
    let ghost tv = targets.deep_view();
    let ghost pv = profiles.deep_view();
    let n = targets.len();
    let mut out: Vec<ProfileName> = Vec::new();
    let mut i: usize = 0;
    proof {
        assert(tv.skip(0) =~= tv);
        assert(out.deep_view() =~= Seq::<NameV>::empty());
        assert(Seq::<NameV>::empty() + spec_production_targets(tv, pv) =~= spec_production_targets(
            tv,
            pv,
        ));
    }
    while i < n
        invariant
            0 <= i <= n,
            n == targets.len(),
            tv == targets.deep_view(),
            pv == profiles.deep_view(),
            spec_production_targets(tv, pv) == out.deep_view() + spec_production_targets(
                tv.skip(i as int),
                pv,
            ),
        decreases n - i,
    {
        let ghost suffix = tv.skip(i as int);
        proof {
            assert(suffix[0] == tv[i as int]);
            assert(suffix.drop_first() =~= tv.skip(i as int + 1));
        }
        let hit = match find_profile_idx(profiles, &targets[i]) {
            Some(w) => profiles[w].is_production,
            None => false,
        };
        if hit {
            let ghost old_out = out.deep_view();
            out.push(targets[i].clone());
            proof {
                assert(out.deep_view() =~= old_out.push(tv[i as int]));
                assert(old_out + (seq![tv[i as int]] + spec_production_targets(
                    tv.skip(i as int + 1),
                    pv,
                )) =~= out.deep_view() + spec_production_targets(tv.skip(i as int + 1), pv));
            }
        }
        i = i + 1;
    }
    proof {
        assert(tv.skip(n as int) =~= Seq::<NameV>::empty());
        assert(spec_production_targets(tv, pv) =~= out.deep_view());
    }
    out
}

/// Switch the locked flag of every targeted profile, touching nothing
/// else.
pub fn set_lock_status(profiles: &Vec<AwsProfile>, targets: &Vec<ProfileName>, locked: bool) -> (r:
    Vec<AwsProfile>)
    ensures
        r.deep_view() == spec_set_lock(profiles.deep_view(), targets.deep_view(), locked),
{
    let ghost pv = profiles.deep_view();
    let ghost tv = targets.deep_view();
    let n = profiles.len();
    let mut out: Vec<AwsProfile> = Vec::new();
    let mut i: usize = 0;
    while i < n
        invariant
            0 <= i <= n,
            n == profiles.len(),
            pv == profiles.deep_view(),
            tv == targets.deep_view(),
            out.deep_view() =~= spec_set_lock(pv, tv, locked).take(i as int),
        decreases n - i,
    {
        let p = &profiles[i];
        let targeted = names_contain(targets, &p.name);
        let new_locked = if targeted {
            locked
        } else {
            p.is_locked
        };
        let q = WithAwsProfileMetadata {
            name: p.name.clone(),
            is_production: p.is_production,
            is_locked: new_locked,
            data: crate::aws_profile::AwsProfileData {
                conf: crate::aws_profile::clone_conf_data(&p.data.conf),
                cred: crate::aws_profile::clone_cred_data(&p.data.cred),
            },
        };
        let ghost old_out = out.deep_view();
        out.push(q);
        proof {
            assert(out.deep_view() =~= old_out.push(out.deep_view().last()));
            assert(out.deep_view().last() =~= spec_set_lock(pv, tv, locked)[i as int]);
            assert(out.deep_view() =~= spec_set_lock(pv, tv, locked).take(i as int + 1));
        }
        i = i + 1;
    }
    proof {
        assert(spec_set_lock(pv, tv, locked).take(n as int) =~= spec_set_lock(pv, tv, locked));
    }
    out
}

/// One read-modify-write cycle: parse both texts, check the targets,
/// switch the locked flag, and serialize the rewritten texts.
pub fn modify_lock_status(
    config_text: &str,
    credentials_text: &str,
    target_profiles: &Vec<ProfileName>,
    error_if_not_exist: bool,
    warn_on_production: bool,
    production_confirmed: bool,
    lock: bool,
) -> (r: Result<(Vec<AwsProfile>, String, String), AwsError>)
    ensures
        match r {
            Ok((ps, conf_out, cred_out)) => spec_modify(
                config_text@,
                credentials_text@,
                target_profiles.deep_view(),
                error_if_not_exist,
                warn_on_production,
                production_confirmed,
                lock,
            ) == Ok::<(Seq<MetaV<ProfV>>, Seq<char>, Seq<char>), ErrV>(
                (ps.deep_view(), conf_out@, cred_out@),
            ),
            Err(e) => spec_modify(
                config_text@,
                credentials_text@,
                target_profiles.deep_view(),
                error_if_not_exist,
                warn_on_production,
                production_confirmed,
                lock,
            ) == Err::<(Seq<MetaV<ProfV>>, Seq<char>, Seq<char>), ErrV>(e.deep_view()),
        },
{
    let profiles = match parse_profiles(config_text, credentials_text) {
        Ok(ps) => ps,
        Err(e) => {
            return Err(e);
        },
    };
    if error_if_not_exist {
        let unknown = unknown_profiles(target_profiles, &profiles);
        if unknown.len() > 0 {
            return Err(AwsError::UnknownProfiles(unknown));
        }
    }
    if warn_on_production && !production_confirmed {
        let prod = production_targets(target_profiles, &profiles);
        if prod.len() > 0 {
            return Err(AwsError::UserCancelled);
        }
    }
    let updated = set_lock_status(&profiles, target_profiles, lock);
    let (conf_out, cred_out) = write_profiles(&updated);
    Ok((updated, conf_out, cred_out))
}

// ------------------------------------------------------------------
// The guard
// ------------------------------------------------------------------

/// The scope-bound value of an exposure window: it is created by an unlock
/// and carries the target list and the unlocked profile snapshot; its
/// release computes the re-locked texts over freshly parsed input.
#[derive(Debug)]
pub struct AwsLockGuard {
    pub target_profiles: Vec<ProfileName>,
    pub profiles: Vec<AwsProfile>,
}

impl AwsLockGuard {
    /// Unlock the targets over the given texts: parse, reject unknown
    /// targets if demanded, require confirmation for production targets if
    /// demanded, clear the targets' locked flags, and serialize. Returns
    /// the guard and the two texts to write back.
    ///
    /// The interactive confirmation itself is the caller's: when
    /// `warn_on_production` is set and some target is production-flagged
    /// (see `production_targets`), the call fails with `UserCancelled`
    /// unless the caller passes the user's affirmative answer in
    /// `production_confirmed`.
    pub fn unlock(
        config_text: &str,
        credentials_text: &str,
        target_profiles: Vec<ProfileName>,
        error_if_not_exist: bool,
        warn_on_production: bool,
        production_confirmed: bool,
    ) -> (r: Result<(AwsLockGuard, String, String), AwsError>)
        ensures
            match r {
                Ok((g, conf_out, cred_out)) => {
                    &&& spec_modify(
                        config_text@,
                        credentials_text@,
                        g.target_profiles.deep_view(),
                        error_if_not_exist,
                        warn_on_production,
                        production_confirmed,
                        false,
                    ) == Ok::<(Seq<MetaV<ProfV>>, Seq<char>, Seq<char>), ErrV>(
                        (g.profiles.deep_view(), conf_out@, cred_out@),
                    )
                    &&& g.target_profiles.deep_view() == target_profiles.deep_view()
                },
                Err(e) => spec_modify(
                    config_text@,
                    credentials_text@,
                    target_profiles.deep_view(),
                    error_if_not_exist,
                    warn_on_production,
                    production_confirmed,
                    false,
                ) == Err::<(Seq<MetaV<ProfV>>, Seq<char>, Seq<char>), ErrV>(e.deep_view()),
            },
    {
        match modify_lock_status(
            config_text,
            credentials_text,
            &target_profiles,
            error_if_not_exist,
            warn_on_production,
            production_confirmed,
            false,
        ) {
            Ok((profiles, conf_out, cred_out)) => Ok(
                (AwsLockGuard { target_profiles, profiles }, conf_out, cred_out),
            ),
            Err(e) => Err(e),
        }
    }

    /// Release: re-lock every target still present over freshly parsed
    /// texts (missing targets are skipped, never re-created). Returns the
    /// re-locked profiles and the two texts to write back.
    pub fn lock(&self, config_text: &str, credentials_text: &str) -> (r: Result<
        (Vec<AwsProfile>, String, String),
        AwsError,
    >)
        ensures
            match r {
                Ok((ps, conf_out, cred_out)) => spec_modify(
                    config_text@,
                    credentials_text@,
                    self.target_profiles.deep_view(),
                    false,
                    false,
                    false,
                    true,
                ) == Ok::<(Seq<MetaV<ProfV>>, Seq<char>, Seq<char>), ErrV>(
                    (ps.deep_view(), conf_out@, cred_out@),
                ),
                Err(e) => spec_modify(
                    config_text@,
                    credentials_text@,
                    self.target_profiles.deep_view(),
                    false,
                    false,
                    false,
                    true,
                ) == Err::<(Seq<MetaV<ProfV>>, Seq<char>, Seq<char>), ErrV>(e.deep_view()),
            },
    {
        modify_lock_status(
            config_text,
            credentials_text,
            &self.target_profiles,
            false,
            false,
            false,
            true,
        )
    }
}

/// Lock every profile found in the texts, and serialize.
pub fn lock_all(config_text: &str, credentials_text: &str) -> (r: Result<
    (Vec<AwsProfile>, String, String),
    AwsError,
>)
    ensures
        match r {
            Ok((ps, conf_out, cred_out)) => {
                &&& spec_parse_profiles(config_text@, credentials_text@) matches Ok(ps0)
                &&& ps.deep_view() == spec_set_lock(ps0, profile_names(ps0), true)
                &&& conf_out@ == spec_write_config(ps.deep_view())
                &&& cred_out@ == spec_write_credentials(ps.deep_view())
            },
            Err(e) => spec_parse_profiles(config_text@, credentials_text@) == Err::<
                Seq<MetaV<ProfV>>,
                ErrV,
            >(e.deep_view()),
        },
{
    let profiles = match parse_profiles(config_text, credentials_text) {
        Ok(ps) => ps,
        Err(e) => {
            return Err(e);
        },
    };
    let names = profile_names_of(&profiles);
    let updated = set_lock_status(&profiles, &names, true);
    let (conf_out, cred_out) = write_profiles(&updated);
    Ok((updated, conf_out, cred_out))
}

/// The profile names, in order, cloned out.
pub fn profile_names_of(profiles: &Vec<AwsProfile>) -> (r: Vec<ProfileName>)
    ensures
        r.deep_view() == profile_names(profiles.deep_view()),
{
    let ghost pv = profiles.deep_view();
    let n = profiles.len();
    let mut out: Vec<ProfileName> = Vec::new();
    let mut i: usize = 0;
    while i < n
        invariant
            0 <= i <= n,
            n == profiles.len(),
            pv == profiles.deep_view(),
            out.deep_view() =~= profile_names(pv).take(i as int),
        decreases n - i,
    {
        let ghost old_out = out.deep_view();
        out.push(profiles[i].name.clone());
        proof {
            assert(out.deep_view() =~= old_out.push(pv[i as int].name));
            assert(out.deep_view() =~= profile_names(pv).take(i as int + 1));
        }
        i = i + 1;
    }
    proof {
        assert(profile_names(pv).take(n as int) =~= profile_names(pv));
    }
    out
}

/// Read-only query: the targets split into currently locked and currently
/// unlocked names; targets naming no profile are rejected.
pub fn check_current_lock_status(
    config_text: &str,
    credentials_text: &str,
    target_profiles: &Vec<ProfileName>,
) -> (r: Result<(Vec<ProfileName>, Vec<ProfileName>), AwsError>)
    ensures
        match r {
            Ok((locked, unlocked)) => spec_check_status(
                config_text@,
                credentials_text@,
                target_profiles.deep_view(),
            ) == Ok::<(Seq<NameV>, Seq<NameV>), ErrV>(
                (locked.deep_view(), unlocked.deep_view()),
            ),
            Err(e) => spec_check_status(
                config_text@,
                credentials_text@,
                target_profiles.deep_view(),
            ) == Err::<(Seq<NameV>, Seq<NameV>), ErrV>(e.deep_view()),
        },
{
    let profiles = match parse_profiles(config_text, credentials_text) {
        Ok(ps) => ps,
        Err(e) => {
            return Err(e);
        },
    };
    let unknown = unknown_profiles(target_profiles, &profiles);
    if unknown.len() > 0 {
        return Err(AwsError::UnknownProfiles(unknown));
    }
    let ghost pv = profiles.deep_view();
    let ghost tv = target_profiles.deep_view();
    let n = profiles.len();
    let mut locked: Vec<ProfileName> = Vec::new();
    let mut unlocked: Vec<ProfileName> = Vec::new();
    let mut i: usize = 0;
    proof {
        assert(pv.skip(0) =~= pv);
        assert(locked.deep_view() =~= Seq::<NameV>::empty());
        assert(unlocked.deep_view() =~= Seq::<NameV>::empty());
        assert(Seq::<NameV>::empty() + spec_status_names(pv, tv, true) =~= spec_status_names(
            pv,
            tv,
            true,
        ));
        assert(Seq::<NameV>::empty() + spec_status_names(pv, tv, false) =~= spec_status_names(
            pv,
            tv,
            false,
        ));
    }
    while i < n
        invariant
            0 <= i <= n,
            n == profiles.len(),
            pv == profiles.deep_view(),
            tv == target_profiles.deep_view(),
            spec_status_names(pv, tv, true) == locked.deep_view() + spec_status_names(
                pv.skip(i as int),
                tv,
                true,
            ),
            spec_status_names(pv, tv, false) == unlocked.deep_view() + spec_status_names(
                pv.skip(i as int),
                tv,
                false,
            ),
        decreases n - i,
    {
        let ghost suffix = pv.skip(i as int);
        proof {
            assert(suffix[0] == pv[i as int]);
            assert(suffix.drop_first() =~= pv.skip(i as int + 1));
        }
        let p = &profiles[i];
        if names_contain(target_profiles, &p.name) {
            if p.is_locked {
                let ghost old_l = locked.deep_view();
                locked.push(p.name.clone());
                proof {
                    assert(locked.deep_view() =~= old_l.push(pv[i as int].name));
                    assert(old_l + (seq![pv[i as int].name] + spec_status_names(
                        pv.skip(i as int + 1),
                        tv,
                        true,
                    )) =~= locked.deep_view() + spec_status_names(pv.skip(i as int + 1), tv, true));
                }
            } else {
                let ghost old_u = unlocked.deep_view();
                unlocked.push(p.name.clone());
                proof {
                    assert(unlocked.deep_view() =~= old_u.push(pv[i as int].name));
                    assert(old_u + (seq![pv[i as int].name] + spec_status_names(
                        pv.skip(i as int + 1),
                        tv,
                        false,
                    )) =~= unlocked.deep_view() + spec_status_names(
                        pv.skip(i as int + 1),
                        tv,
                        false,
                    ));
                }
            }
        }
        i = i + 1;
    }
    proof {
        assert(pv.skip(n as int) =~= Seq::<MetaV<ProfV>>::empty());
        assert(spec_status_names(pv, tv, true) =~= locked.deep_view());
        assert(spec_status_names(pv, tv, false) =~= unlocked.deep_view());
    }
    Ok((locked, unlocked))
}

} // verus!
