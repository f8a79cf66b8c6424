use aws_unlock::aws_profile::{
    merge_profiles, parse_config, parse_credentials, parse_profiles, write_profiles,
    AwsConfigData, AwsCredentialData, AwsProfile, AwsProfileData, ProfileName,
    WithAwsProfileMetadata,
};
use aws_unlock::error::AwsError;

fn s(x: &str) -> String {
    x.to_string()
}

const P7_CONFIG: &str = "[default]\nregion = us-east-1\n\n[profile work]\nregion = eu-west-1\n";
const P7_CREDENTIALS: &str = "[default]\naws_access_key_id = A\naws_secret_access_key = B\n\n\
[work]\naws_access_key_id = C\naws_secret_access_key = D\n";

#[test]
fn example_two_profiles() {
    let ps = parse_profiles(P7_CONFIG, P7_CREDENTIALS).unwrap();
    assert_eq!(ps.len(), 2);
    assert_eq!(ps[0].name, ProfileName::Default);
    assert_eq!(ps[1].name, ProfileName::Named(s("work")));
    assert!(!ps[0].is_locked && !ps[1].is_locked);
    assert!(!ps[0].is_production && !ps[1].is_production);
    assert_eq!(ps[0].data.conf.region, Some(s("us-east-1")));
    assert_eq!(ps[1].data.conf.region, Some(s("eu-west-1")));
    assert_eq!(ps[0].data.cred.aws_access_key_id, "A");
    assert_eq!(ps[0].data.cred.aws_secret_access_key, "B");
    assert_eq!(ps[1].data.cred.aws_access_key_id, "C");
    assert_eq!(ps[1].data.cred.aws_secret_access_key, "D");
}

#[test]
fn write_reproduces_the_example_texts() {
    let ps = parse_profiles(P7_CONFIG, P7_CREDENTIALS).unwrap();
    let (conf, cred) = write_profiles(&ps);
    assert_eq!(conf, P7_CONFIG);
    assert_eq!(cred, P7_CREDENTIALS);
}

#[test]
fn round_trip_preserves_profiles() {
    let conf_text = "# team account\n# production\n[profile work]\nregion = eu-west-1\n\
output = json\n\n# [default]\n# region = us-east-1\n";
    let cred_text = "[work]\naws_access_key_id = AKID\naws_secret_access_key = SK\n\
aws_session_token = TOK\nregion = eu-central-1\n\n# [default]\n# aws_access_key_id = X\n\
# aws_secret_access_key = Y\n";
    let ps = parse_profiles(conf_text, cred_text).unwrap();
    let (conf2, cred2) = write_profiles(&ps);
    let qs = parse_profiles(&conf2, &cred2).unwrap();
    assert_eq!(ps.len(), qs.len());
    for (p, q) in ps.iter().zip(qs.iter()) {
        assert_eq!(p.name, q.name);
        assert_eq!(p.is_production, q.is_production);
        assert_eq!(p.is_locked, q.is_locked);
        assert_eq!(p.data.conf.comments, q.data.conf.comments);
        assert_eq!(p.data.conf.region, q.data.conf.region);
        assert_eq!(p.data.conf.output, q.data.conf.output);
        assert_eq!(p.data.cred.comments, q.data.cred.comments);
        assert_eq!(p.data.cred.aws_access_key_id, q.data.cred.aws_access_key_id);
        assert_eq!(p.data.cred.aws_secret_access_key, q.data.cred.aws_secret_access_key);
        assert_eq!(p.data.cred.aws_session_token, q.data.cred.aws_session_token);
        assert_eq!(p.data.cred.aws_session_expiration, q.data.cred.aws_session_expiration);
        assert_eq!(p.data.cred.aws_security_token, q.data.cred.aws_security_token);
        assert_eq!(p.data.cred.region, q.data.cred.region);
    }
}

#[test]
fn credentials_only_profile_gets_default_config_side() {
    let ps = parse_profiles("", "[solo]\naws_access_key_id = A\naws_secret_access_key = B\n")
        .unwrap();
    assert_eq!(ps.len(), 1);
    assert_eq!(ps[0].name, ProfileName::Named(s("solo")));
    assert_eq!(ps[0].data.conf.comments, Vec::<String>::new());
    assert_eq!(ps[0].data.conf.region, None);
    assert_eq!(ps[0].data.conf.output, None);
}

#[test]
fn config_only_profile_fails_merge() {
    let e = parse_profiles("[profile ghost]\nregion = x\n", "").unwrap_err();
    assert!(matches!(e, AwsError::MissingCredentials(n) if n == ProfileName::Named(s("ghost"))));
}

#[test]
fn missing_access_key_id_is_reported() {
    let e = parse_profiles("", "[x]\naws_secret_access_key = S\n").unwrap_err();
    assert!(
        matches!(e, AwsError::MissingRequiredField(k, n)
            if k == "aws_access_key_id" && n == ProfileName::Named(s("x")))
    );
}

#[test]
fn missing_secret_access_key_is_reported() {
    let e = parse_profiles("", "[x]\naws_access_key_id = A\n").unwrap_err();
    assert!(
        matches!(e, AwsError::MissingRequiredField(k, n)
            if k == "aws_secret_access_key" && n == ProfileName::Named(s("x")))
    );
}

#[test]
fn invalid_config_header_is_reported() {
    let e = parse_config("[bogus]\n").unwrap_err();
    assert!(matches!(e, AwsError::InvalidHeader(h) if h == "bogus"));
}

#[test]
fn config_profile_header_named_default_normalizes() {
    let cs = parse_config("[profile default]\n").unwrap();
    assert_eq!(cs[0].name, ProfileName::Default);
}

#[test]
fn credentials_default_header_normalizes() {
    let cs = parse_credentials("[default]\naws_access_key_id = A\naws_secret_access_key = B\n")
        .unwrap();
    assert_eq!(cs[0].name, ProfileName::Default);
}

#[test]
fn merge_flags_are_disjunctions() {
    let conf = "# production\n[profile work]\nregion = x\n";
    let cred = "# [work]\n# aws_access_key_id = A\n# aws_secret_access_key = B\n";
    let ps = parse_profiles(conf, cred).unwrap();
    assert_eq!(ps.len(), 1);
    assert!(ps[0].is_production);
    assert!(ps[0].is_locked);
}

#[test]
fn duplicate_entries_keep_first_position_and_last_data() {
    let cred = "[a]\naws_access_key_id = A1\naws_secret_access_key = S1\n\n\
[b]\naws_access_key_id = B1\naws_secret_access_key = S2\n\n\
[a]\naws_access_key_id = A2\naws_secret_access_key = S3\n";
    let ps = parse_profiles("", cred).unwrap();
    assert_eq!(ps.len(), 2);
    assert_eq!(ps[0].name, ProfileName::Named(s("a")));
    assert_eq!(ps[0].data.cred.aws_access_key_id, "A2");
    assert_eq!(ps[1].name, ProfileName::Named(s("b")));
}

#[test]
fn merge_order_is_config_first_then_credentials() {
    let conf = "[profile beta]\n\n[default]\n";
    let cred = "[alpha]\naws_access_key_id = A\naws_secret_access_key = S\n\n\
[beta]\naws_access_key_id = B\naws_secret_access_key = S\n\n\
[default]\naws_access_key_id = D\naws_secret_access_key = S\n";
    let ps = parse_profiles(conf, cred).unwrap();
    let names: Vec<ProfileName> = ps.iter().map(|p| p.name.clone()).collect();
    assert_eq!(
        names,
        vec![
            ProfileName::Named(s("beta")),
            ProfileName::Default,
            ProfileName::Named(s("alpha")),
        ]
    );
}

#[test]
fn write_empty_store_writes_empty_texts() {
    let (conf, cred) = write_profiles(&vec![]);
    assert_eq!(conf, "");
    assert_eq!(cred, "");
}

#[test]
fn write_emits_fixed_credential_key_order() {
    let profile: AwsProfile = WithAwsProfileMetadata {
        name: ProfileName::Named(s("p")),
        is_production: true,
        is_locked: true,
        data: AwsProfileData {
            conf: AwsConfigData {
                comments: vec![s("side note")],
                region: Some(s("eu-west-1")),
                output: Some(s("json")),
            },
            cred: AwsCredentialData {
                comments: vec![],
                aws_access_key_id: s("AK"),
                aws_secret_access_key: s("SK"),
                aws_session_token: Some(s("TOK")),
                aws_session_expiration: None,
                aws_security_token: Some(s("SEC")),
                region: Some(s("us-west-2")),
            },
        },
    };
    let (conf, cred) = write_profiles(&vec![profile]);
    assert_eq!(
        conf,
        "# side note\n# production\n# [profile p]\n# region = eu-west-1\n# output = json\n"
    );
    assert_eq!(
        cred,
        "# production\n# [p]\n# aws_access_key_id = AK\n# aws_secret_access_key = SK\n\
# aws_session_token = TOK\n# aws_security_token = SEC\n# region = us-west-2\n"
    );
}

#[test]
fn merge_of_explicit_records_requires_credentials() {
    let confs = parse_config("[profile a]\n").unwrap();
    let e = merge_profiles(&confs, &vec![]).unwrap_err();
    assert!(matches!(e, AwsError::MissingCredentials(n) if n == ProfileName::Named(s("a"))));
}

#[test]
fn metadata_keeps_its_fields_through_map_and_to_ref() {
    let w = WithAwsProfileMetadata {
        name: ProfileName::Named(s("x")),
        is_production: true,
        is_locked: false,
        data: s("payload"),
    };
    let r = w.to_ref();
    assert_eq!(r.name, ProfileName::Named(s("x")));
    assert_eq!(*r.data, s("payload"));
    let m = w.map(|d: String| d.len());
    assert_eq!(m.name, ProfileName::Named(s("x")));
    assert!(m.is_production);
    assert!(!m.is_locked);
    assert_eq!(m.data, 7);
}

#[test]
fn credential_env_prefers_the_config_region() {
    let ps = parse_profiles(P7_CONFIG, P7_CREDENTIALS).unwrap();
    let env = aws_unlock::aws_profile::credential_env(&ps[1]);
    assert_eq!(
        env,
        vec![
            (s("AWS_PROFILE"), s("work")),
            (s("AWS_ACCESS_KEY_ID"), s("C")),
            (s("AWS_SECRET_ACCESS_KEY"), s("D")),
            (s("AWS_REGION"), s("eu-west-1")),
        ]
    );
    // the default profile gets no AWS_PROFILE entry
    let env0 = aws_unlock::aws_profile::credential_env(&ps[0]);
    assert_eq!(env0[0], (s("AWS_ACCESS_KEY_ID"), s("A")));
}

#[test]
fn credential_env_falls_back_to_the_credentials_region() {
    let cred = "[p]\naws_access_key_id = A\naws_secret_access_key = B\n\
aws_session_token = T\nregion = ap-northeast-1\n";
    let ps = parse_profiles("", cred).unwrap();
    let env = aws_unlock::aws_profile::credential_env(&ps[0]);
    assert_eq!(
        env,
        vec![
            (s("AWS_PROFILE"), s("p")),
            (s("AWS_ACCESS_KEY_ID"), s("A")),
            (s("AWS_SECRET_ACCESS_KEY"), s("B")),
            (s("AWS_SESSION_TOKEN"), s("T")),
            (s("AWS_REGION"), s("ap-northeast-1")),
        ]
    );
}

#[test]
fn malformed_config_text_is_reported_from_the_store() {
    let e = parse_profiles("what is this", "").unwrap_err();
    assert!(matches!(e, AwsError::MalformedLine(l) if l == "what is this"));
}
