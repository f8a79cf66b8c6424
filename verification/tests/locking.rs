use aws_unlock::aws_lock::{
    check_current_lock_status, lock_all, modify_lock_status, profile_names_of, set_lock_status,
    unknown_profiles, AwsLockGuard,
};
use aws_unlock::aws_profile::{parse_profiles, write_profiles, ProfileName};
use aws_unlock::error::AwsError;

fn s(x: &str) -> String {
    x.to_string()
}

const CONFIG: &str = "[default]\nregion = us-east-1\n\n[profile work]\nregion = eu-west-1\n";
const CREDENTIALS: &str = "[default]\naws_access_key_id = A\naws_secret_access_key = B\n\n\
[work]\naws_access_key_id = C\naws_secret_access_key = D\n";

#[test]
fn lock_commented_example() {
    // from an unlocked store, re-locking the `work` profile comments out
    // exactly its credentials entry
    let guard = AwsLockGuard {
        target_profiles: vec![ProfileName::Named(s("work"))],
        profiles: parse_profiles(CONFIG, CREDENTIALS).unwrap(),
    };
    let (_ps, conf, cred) = guard.lock(CONFIG, CREDENTIALS).unwrap();
    assert_eq!(
        conf,
        "[default]\nregion = us-east-1\n\n# [profile work]\n# region = eu-west-1\n"
    );
    assert_eq!(
        cred,
        "[default]\naws_access_key_id = A\naws_secret_access_key = B\n\n\
# [work]\n# aws_access_key_id = C\n# aws_secret_access_key = D\n"
    );
}

#[test]
fn unlock_clears_the_targets_flag() {
    let (_g, conf, cred) = AwsLockGuard::unlock(
        "# [profile work]\n# region = eu-west-1\n",
        "# [work]\n# aws_access_key_id = C\n# aws_secret_access_key = D\n",
        vec![ProfileName::Named(s("work"))],
        true,
        false,
        false,
    )
    .unwrap();
    assert_eq!(conf, "[profile work]\nregion = eu-west-1\n");
    assert_eq!(cred, "[work]\naws_access_key_id = C\naws_secret_access_key = D\n");
}

#[test]
fn guard_release_relocks_every_target_and_nothing_else() {
    // unlock `work`, then release: `work` ends locked, `default` untouched
    let (guard, conf1, cred1) = AwsLockGuard::unlock(
        CONFIG,
        CREDENTIALS,
        vec![ProfileName::Named(s("work"))],
        true,
        false,
        false,
    )
    .unwrap();
    let (ps, conf2, cred2) = guard.lock(&conf1, &cred1).unwrap();
    assert!(ps.iter().all(|p| {
        if p.name == ProfileName::Named(s("work")) {
            p.is_locked
        } else {
            !p.is_locked
        }
    }));
    let qs = parse_profiles(&conf2, &cred2).unwrap();
    assert!(qs[1].is_locked);
    assert!(!qs[0].is_locked);
}

#[test]
fn lock_then_unlock_restores_other_profiles() {
    let ps = parse_profiles(CONFIG, CREDENTIALS).unwrap();
    let targets = vec![ProfileName::Named(s("work"))];
    let locked = set_lock_status(&ps, &targets, true);
    let restored = set_lock_status(&locked, &targets, false);
    assert_eq!(restored.len(), ps.len());
    for (p, q) in ps.iter().zip(restored.iter()) {
        assert_eq!(p.name, q.name);
        assert_eq!(p.is_locked, q.is_locked);
        assert_eq!(p.is_production, q.is_production);
    }
}

#[test]
fn unknown_target_is_rejected_without_output() {
    let e = AwsLockGuard::unlock(
        CONFIG,
        CREDENTIALS,
        vec![ProfileName::Named(s("ghost"))],
        true,
        false,
        false,
    )
    .unwrap_err();
    assert!(
        matches!(e, AwsError::UnknownProfiles(ns) if ns == vec![ProfileName::Named(s("ghost"))])
    );
}

#[test]
fn all_unknown_targets_are_listed() {
    let ps = parse_profiles(CONFIG, CREDENTIALS).unwrap();
    let targets = vec![
        ProfileName::Named(s("ghost")),
        ProfileName::Named(s("work")),
        ProfileName::Named(s("phantom")),
    ];
    let unknown = unknown_profiles(&targets, &ps);
    assert_eq!(
        unknown,
        vec![ProfileName::Named(s("ghost")), ProfileName::Named(s("phantom"))]
    );
}

#[test]
fn missing_target_is_tolerated_when_not_demanded() {
    let (ps, _conf, _cred) = modify_lock_status(
        CONFIG,
        CREDENTIALS,
        &vec![ProfileName::Named(s("ghost"))],
        false,
        false,
        false,
        true,
    )
    .unwrap();
    // nothing was targeted, nothing changed, nothing was re-created
    assert_eq!(ps.len(), 2);
    assert!(ps.iter().all(|p| !p.is_locked));
}

#[test]
fn production_unlock_needs_confirmation() {
    let conf = "# production\n[profile work]\nregion = x\n";
    let cred = "[work]\naws_access_key_id = C\naws_secret_access_key = D\n";
    let targets = vec![ProfileName::Named(s("work"))];
    let e = AwsLockGuard::unlock(conf, cred, targets.clone(), true, true, false).unwrap_err();
    assert!(matches!(e, AwsError::UserCancelled));
    let (g, _, _) = AwsLockGuard::unlock(conf, cred, targets, true, true, true).unwrap();
    assert!(!g.profiles[0].is_locked);
}

#[test]
fn non_production_unlock_needs_no_confirmation() {
    let r = AwsLockGuard::unlock(
        CONFIG,
        CREDENTIALS,
        vec![ProfileName::Named(s("work"))],
        true,
        true,
        false,
    );
    assert!(r.is_ok());
}

#[test]
fn lock_all_locks_every_profile() {
    let (ps, conf, cred) = lock_all(CONFIG, CREDENTIALS).unwrap();
    assert_eq!(ps.len(), 2);
    assert!(ps.iter().all(|p| p.is_locked));
    let qs = parse_profiles(&conf, &cred).unwrap();
    assert!(qs.iter().all(|p| p.is_locked));
}

#[test]
fn check_status_splits_targets() {
    let (_ps, conf, cred) = lock_all(CONFIG, CREDENTIALS).unwrap();
    let targets = vec![ProfileName::Default, ProfileName::Named(s("work"))];
    let (locked, unlocked) = check_current_lock_status(&conf, &cred, &targets).unwrap();
    assert_eq!(locked, targets);
    assert_eq!(unlocked, vec![]);

    let (locked2, unlocked2) = check_current_lock_status(CONFIG, CREDENTIALS, &targets).unwrap();
    assert_eq!(locked2, vec![]);
    assert_eq!(unlocked2, targets);
}

#[test]
fn check_status_rejects_unknown_targets() {
    let e = check_current_lock_status(
        CONFIG,
        CREDENTIALS,
        &vec![ProfileName::Named(s("nope"))],
    )
    .unwrap_err();
    assert!(matches!(e, AwsError::UnknownProfiles(ns) if ns == vec![ProfileName::Named(s("nope"))]));
}

#[test]
fn profile_names_keep_store_order() {
    let ps = parse_profiles(CONFIG, CREDENTIALS).unwrap();
    let names = profile_names_of(&ps);
    assert_eq!(names, vec![ProfileName::Default, ProfileName::Named(s("work"))]);
}

#[test]
fn unlock_write_then_release_round_trip() {
    // simulated cancellation: the release runs over whatever is on disk
    let targets = vec![ProfileName::Default];
    let (guard, conf1, cred1) =
        AwsLockGuard::unlock(CONFIG, CREDENTIALS, targets, true, false, false).unwrap();
    // the exposure window ends abruptly; release re-reads and re-locks
    let (ps, _conf2, _cred2) = guard.lock(&conf1, &cred1).unwrap();
    let (expected_conf, expected_cred) = write_profiles(&ps);
    let reparsed = parse_profiles(&expected_conf, &expected_cred).unwrap();
    assert!(reparsed[0].is_locked);
    assert!(!reparsed[1].is_locked);
}
