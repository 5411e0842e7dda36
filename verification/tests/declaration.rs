use census::declaration::{
    is_valid_group_name, is_valid_role_id, is_valid_user_name, required_groups, Declaration,
    DeclarationError, Defaults, GroupSpec, ResolvedAccount, RoleAccount, RoleGroup,
};

/// Refuse a key that is not one of `known`.
fn only_known(table: &toml::Table, known: &[&str]) -> Result<(), String> {
    match table.keys().find(|k| !known.contains(&k.as_str())) {
        Some(key) => Err(format!("unknown field `{key}`")),
        None => Ok(()),
    }
}

fn text(table: &toml::Table, key: &str) -> Result<Option<String>, String> {
    match table.get(key) {
        None => Ok(None),
        Some(v) => match v.as_str() {
            Some(s) => Ok(Some(s.to_owned())),
            None => Err(format!("`{key}` is not a string")),
        },
    }
}

fn number(value: &toml::Value) -> Result<u32, String> {
    match value.as_integer() {
        Some(n) => u32::try_from(n).map_err(|e| e.to_string()),
        None => Err("not an integer".to_owned()),
    }
}

fn opt_number(table: &toml::Table, key: &str) -> Result<Option<u32>, String> {
    match table.get(key) {
        None => Ok(None),
        Some(v) => number(v).map(Some),
    }
}

fn flag(table: &toml::Table, key: &str) -> Result<bool, String> {
    match table.get(key) {
        None => Ok(false),
        Some(v) => v.as_bool().ok_or(format!("`{key}` is not a boolean")),
    }
}

fn must<T>(value: Option<T>, key: &str) -> Result<T, String> {
    value.ok_or(format!("missing field `{key}`"))
}

fn tables(table: &toml::Table, key: &str) -> Result<Vec<toml::Table>, String> {
    let list = match table.get(key) {
        None => return Ok(Vec::new()),
        Some(v) => v.as_array().ok_or(format!("`{key}` is not a list"))?,
    };
    list.iter()
        .map(|v| v.as_table().cloned().ok_or(format!("`{key}` holds no table")))
        .collect()
}

/// Read the text of a declaration, as strictly as the program does.
fn read(doc: &str) -> Result<Declaration, String> {
    let top = toml::from_str::<toml::Table>(doc).map_err(|e| e.to_string())?;
    only_known(
        &top,
        &[
            "version",
            "role_store",
            "defaults",
            "role_account",
            "group",
            "role_group",
            "signature",
        ],
    )?;
    let defaults = must(top.get("defaults").and_then(|v| v.as_table()), "defaults")?;
    only_known(defaults, &["uid_range", "shell", "home_base"])?;
    let range = must(defaults.get("uid_range").and_then(|v| v.as_array()), "uid_range")?;
    if range.len() != 2 {
        return Err("`uid_range` is no pair".to_owned());
    }
    let mut role_accounts = Vec::new();
    for t in tables(&top, "role_account")? {
        only_known(&t, &["role", "uid", "user", "adopt", "shell", "home"])?;
        role_accounts.push(RoleAccount {
            role: must(text(&t, "role")?, "role")?,
            uid: opt_number(&t, "uid")?,
            user: text(&t, "user")?,
            adopt: flag(&t, "adopt")?,
            shell: text(&t, "shell")?,
            home: text(&t, "home")?,
        });
    }
    let mut groups = Vec::new();
    for t in tables(&top, "group")? {
        only_known(&t, &["name", "gid", "adopt", "members"])?;
        let mut members = Vec::new();
        if let Some(list) = t.get("members").and_then(|v| v.as_array()) {
            for m in list {
                members.push(must(m.as_str(), "members")?.to_owned());
            }
        }
        groups.push(GroupSpec {
            name: must(text(&t, "name")?, "name")?,
            gid: opt_number(&t, "gid")?,
            adopt: flag(&t, "adopt")?,
            members,
        });
    }
    let mut role_groups = Vec::new();
    for t in tables(&top, "role_group")? {
        only_known(&t, &["role", "group"])?;
        role_groups.push(RoleGroup {
            role: must(text(&t, "role")?, "role")?,
            group: must(text(&t, "group")?, "group")?,
        });
    }
    Ok(Declaration {
        version: must(opt_number(&top, "version")?, "version")?,
        role_store: must(text(&top, "role_store")?, "role_store")?,
        defaults: Defaults {
            uid_range: [number(&range[0])?, number(&range[1])?],
            shell: must(text(defaults, "shell")?, "shell")?,
            home_base: must(text(defaults, "home_base")?, "home_base")?,
        },
        role_accounts,
        groups,
        role_groups,
        signature: text(&top, "signature")?,
    })
}

fn parse(doc: &str) -> Result<Declaration, DeclarationError> {
    Declaration::parse(read(doc))
}

const SAMPLE: &str = r#"
version = 12
role_store = "/var/lib/tessera/roles"

[defaults]
uid_range = [9000, 9999]
shell = "/bin/bash"
home_base = "/var/lib/census/home"

[[role_account]]
role = "oper"
uid = 9010
shell = "/bin/bash"
home = "/var/lib/census/home/oper"

[[role_account]]
role = "serv"
uid = 9020
"#;

#[test]
fn parses_sample() {
    let d = parse(SAMPLE).unwrap();
    assert_eq!(d.version, 12);
    assert_eq!(d.role_store, "/var/lib/tessera/roles");
    assert_eq!(d.defaults.uid_range, [9000, 9999]);
    assert_eq!(d.role_accounts.len(), 2);
    assert_eq!(d.role_accounts[0].role, "oper");
    assert_eq!(d.role_accounts[0].uid, Some(9010));
}

#[test]
fn defaults_fill_shell_and_home() {
    let d = parse(SAMPLE).unwrap();
    let serv = &d.role_accounts[1];
    assert_eq!(d.shell_for(serv), "/bin/bash");
    assert_eq!(d.home_for(serv), "/var/lib/census/home/serv");
}

#[test]
fn unknown_field_rejected() {
    let doc = format!("{SAMPLE}\nbogus = 1\n");
    let err = parse(&doc).unwrap_err();
    assert!(matches!(err, DeclarationError::TomlParse(_)));
}

#[test]
fn version_zero_rejected() {
    let doc = SAMPLE.replace("version = 12", "version = 0");
    assert!(matches!(
        parse(&doc).unwrap_err(),
        DeclarationError::VersionZero(0)
    ));
}

#[test]
fn uid_out_of_range_rejected() {
    let doc = SAMPLE.replace("uid = 9010", "uid = 100");
    assert!(matches!(
        parse(&doc).unwrap_err(),
        DeclarationError::UidOutOfRange { uid: 100, .. }
    ));
}

#[test]
fn uid_collision_rejected() {
    let doc = SAMPLE.replace("uid = 9020", "uid = 9010");
    assert!(matches!(
        parse(&doc).unwrap_err(),
        DeclarationError::UidCollision { uid: 9010, .. }
    ));
}

#[test]
fn duplicate_role_rejected() {
    let doc = SAMPLE.replace("role = \"serv\"", "role = \"oper\"");
    assert!(matches!(
        parse(&doc).unwrap_err(),
        DeclarationError::DuplicateRole(_)
    ));
}

#[test]
fn invalid_role_ids_rejected() {
    for bad in ["", "../foo", "Abc", "1abc"] {
        let doc = SAMPLE.replace("role = \"oper\"", &format!("role = {bad:?}"));
        assert!(
            matches!(
                parse(&doc).unwrap_err(),
                DeclarationError::RoleIdInvalid { .. }
            ),
            "role id {bad:?} must be rejected"
        );
    }
}

#[test]
fn valid_role_ids_pass() {
    for good in ["oper", "a-b-c"] {
        let doc = SAMPLE.replace("role = \"oper\"", &format!("role = {good:?}"));
        assert!(
            parse(&doc).is_ok(),
            "role id {good:?} must pass"
        );
    }
}

#[test]
fn signature_line_accepted_by_strict_parser() {
    // deny_unknown_fields must not reject a `signature = "..."` line. As a
    // top-level scalar key it must precede any `[table]` header.
    let doc = "version = 12\nrole_store = \"/r\"\nsignature = \"abcdef\"\n[defaults]\nuid_range = [9000, 9999]\nshell = \"/bin/bash\"\nhome_base = \"/h\"\n";
    let d = parse(doc).unwrap();
    assert_eq!(d.signature.as_deref(), Some("abcdef"));
}

#[test]
fn absent_signature_defaults_to_none() {
    let d = parse(SAMPLE).unwrap();
    assert_eq!(d.signature, None);
}

#[test]
fn inverted_uid_range_rejected() {
    let doc = SAMPLE.replace("uid_range = [9000, 9999]", "uid_range = [9999, 9000]");
    assert!(matches!(
        parse(&doc).unwrap_err(),
        DeclarationError::UidRangeInverted(9999, 9000)
    ));
}

// ---- [[group]] parsing + required-set ----

fn resolved(name: &str, groups: &[&str]) -> ResolvedAccount {
    ResolvedAccount {
        name: name.to_owned(),
        groups: groups.iter().map(|g| g.to_string()).collect(),
    }
}

#[test]
fn group_block_with_pin_parses() {
    let doc = format!(
        "{SAMPLE}\n[[group]]\nname = \"atm-operators\"\ngid = 8010\n[[group]]\nname = \"tellers\"\n"
    );
    let d = parse(&doc).unwrap();
    assert_eq!(d.groups.len(), 2);
    assert_eq!(d.groups[0].name, "atm-operators");
    assert_eq!(d.groups[0].gid, Some(8010));
    assert_eq!(d.groups[1].name, "tellers");
    assert_eq!(d.groups[1].gid, None);
}

#[test]
fn group_block_unknown_field_rejected() {
    let doc = format!("{SAMPLE}\n[[group]]\nname = \"g\"\nbogus = 1\n");
    assert!(matches!(
        parse(&doc).unwrap_err(),
        DeclarationError::TomlParse(_)
    ));
}

#[test]
fn invalid_group_names_rejected() {
    for bad in ["", " ", "Bad", "1g", "a b", "with:colon"] {
        let doc = format!("{SAMPLE}\n[[group]]\nname = {bad:?}\n");
        assert!(
            matches!(
                parse(&doc).unwrap_err(),
                DeclarationError::GroupNameInvalid { .. }
            ),
            "group name {bad:?} must be rejected"
        );
    }
}

#[test]
fn valid_group_names_pass() {
    for good in ["wheel", "atm-operators", "_sys", "g9"] {
        let doc = format!("{SAMPLE}\n[[group]]\nname = {good:?}\n");
        assert!(
            parse(&doc).is_ok(),
            "group name {good:?} must pass"
        );
    }
}

#[test]
fn duplicate_group_rejected() {
    let doc = format!("{SAMPLE}\n[[group]]\nname = \"g\"\n[[group]]\nname = \"g\"\n");
    assert!(matches!(
        parse(&doc).unwrap_err(),
        DeclarationError::DuplicateGroup(_)
    ));
}

#[test]
fn required_groups_unions_roles_and_blocks() {
    let doc = format!(
        "{SAMPLE}\n[[group]]\nname = \"atm-operators\"\ngid = 8010\n[[group]]\nname = \"wheel\"\n"
    );
    let d = parse(&doc).unwrap();
    let res = vec![resolved("oper", &["wheel", "docker"]), resolved("serv", &["wheel"])];
    let req = required_groups(&d, &res).unwrap();
    // union of role groups {wheel, docker} ∪ declared {atm-operators, wheel}
    assert_eq!(req.len(), 3);
    assert!(req.contains_key("wheel"));
    assert!(req.contains_key("docker"));
    assert!(req.contains_key("atm-operators"));
    // pin from [[group]]
    assert_eq!(*req.get("atm-operators").unwrap(), Some(8010));
    // role-only group has no pin
    assert_eq!(*req.get("docker").unwrap(), None);
    // wheel appears in roles AND declared (no pin) → None
    assert_eq!(*req.get("wheel").unwrap(), None);
}

#[test]
fn required_groups_declared_pin_wins_over_role_mention() {
    // A group named by a role AND pinned in [[group]] keeps the pin.
    let doc = format!("{SAMPLE}\n[[group]]\nname = \"wheel\"\ngid = 7000\n");
    let d = parse(&doc).unwrap();
    let res = vec![resolved("oper", &["wheel"])];
    let req = required_groups(&d, &res).unwrap();
    assert_eq!(*req.get("wheel").unwrap(), Some(7000));
}

#[test]
fn required_groups_rejects_invalid_role_derived_name() {
    // A name coming from a role's payload.groups (not a [[group]] block) that
    // is not a valid POSIX group name must fail the required-set computation
    // rather than reaching `groupadd`.
    let d = parse(SAMPLE).unwrap();
    for bad in ["Bad Name", "", "1g", "with:colon"] {
        let res = vec![resolved("oper", &[bad])];
        let err = required_groups(&d, &res).unwrap_err();
        assert!(
            matches!(err, DeclarationError::InvalidGroupName { ref value } if value == bad),
            "role-derived group name {bad:?} must be rejected, got {err:?}"
        );
    }
}

// ---- provenance + adoption + role_group ----

#[test]
fn adopted_role_account_parses() {
    let doc = format!(
        "{SAMPLE}\n[[role_account]]\nrole = \"infra-admin\"\nuser = \"alice\"\nadopt = true\n"
    );
    let d = parse(&doc).unwrap();
    let adopted = d.role_accounts.iter().find(|a| a.role == "infra-admin").unwrap();
    assert_eq!(adopted.user.as_deref(), Some("alice"));
    assert_eq!(adopted.uid, None);
    assert!(adopted.is_adopted());
}

#[test]
fn role_account_with_user_and_uid_rejected() {
    let doc = format!(
        "{SAMPLE}\n[[role_account]]\nrole = \"infra-admin\"\nuser = \"alice\"\nuid = 9030\nadopt = true\n"
    );
    assert!(matches!(
        parse(&doc).unwrap_err(),
        DeclarationError::AccountUidAndUser { .. }
    ));
}

#[test]
fn adopt_without_user_rejected() {
    // adopt = true on a uid-keyed (Created) account is contradictory.
    let doc = format!(
        "{SAMPLE}\n[[role_account]]\nrole = \"infra-admin\"\nuid = 9030\nadopt = true\n"
    );
    assert!(matches!(
        parse(&doc).unwrap_err(),
        DeclarationError::AccountAdoptInconsistent { .. }
    ));
}

#[test]
fn user_without_adopt_rejected() {
    let doc = format!(
        "{SAMPLE}\n[[role_account]]\nrole = \"infra-admin\"\nuser = \"alice\"\n"
    );
    assert!(matches!(
        parse(&doc).unwrap_err(),
        DeclarationError::AccountAdoptInconsistent { .. }
    ));
}

#[test]
fn role_account_without_identity_rejected() {
    // Neither uid nor user: no identity source.
    let doc = format!("{SAMPLE}\n[[role_account]]\nrole = \"infra-admin\"\n");
    assert!(matches!(
        parse(&doc).unwrap_err(),
        DeclarationError::AccountNoIdentity { .. }
    ));
}

#[test]
fn adopted_user_invalid_name_rejected() {
    let doc = format!(
        "{SAMPLE}\n[[role_account]]\nrole = \"infra-admin\"\nuser = \"Bad Name\"\nadopt = true\n"
    );
    assert!(matches!(
        parse(&doc).unwrap_err(),
        DeclarationError::UserNameInvalid { .. }
    ));
}

#[test]
fn group_adopt_with_gid_rejected() {
    let doc = format!("{SAMPLE}\n[[group]]\nname = \"wheel\"\nadopt = true\ngid = 8020\n");
    assert!(matches!(
        parse(&doc).unwrap_err(),
        DeclarationError::GroupAdoptWithGid { .. }
    ));
}

#[test]
fn group_adopt_without_gid_passes() {
    let doc = format!("{SAMPLE}\n[[group]]\nname = \"wheel\"\nadopt = true\n");
    let d = parse(&doc).unwrap();
    let wheel = d.groups.iter().find(|g| g.name == "wheel").unwrap();
    assert!(wheel.adopt);
    assert_eq!(wheel.gid, None);
}

#[test]
fn group_member_invalid_name_rejected() {
    let doc = format!("{SAMPLE}\n[[group]]\nname = \"ops\"\nmembers = [\"Bad Name\"]\n");
    assert!(matches!(
        parse(&doc).unwrap_err(),
        DeclarationError::GroupMemberNameInvalid { .. }
    ));
}

#[test]
fn created_group_allows_any_valid_member() {
    // A Created group (no adopt) may name any valid user, managed or not.
    let doc = format!("{SAMPLE}\n[[group]]\nname = \"ops\"\nmembers = [\"external-user\"]\n");
    assert!(parse(&doc).is_ok());
}

#[test]
fn adopted_group_unmanaged_member_rejected() {
    // A third-party user must not be forced into an adopted (pre-existing)
    // group: Census never drags an unmanaged user into a group it did not
    // create.
    let doc = format!(
        "{SAMPLE}\n[[group]]\nname = \"wheel\"\nadopt = true\nmembers = [\"external-user\"]\n"
    );
    assert!(matches!(
        parse(&doc).unwrap_err(),
        DeclarationError::AdoptedGroupMemberUnmanaged { .. }
    ));
}

#[test]
fn adopted_group_managed_member_passes() {
    // The sample declares Created accounts `oper` and `serv`; a Created
    // account's OS login equals its role id, so `oper` is a managed OS user
    // and is allowed in an adopted group.
    let doc = format!(
        "{SAMPLE}\n[[group]]\nname = \"wheel\"\nadopt = true\nmembers = [\"oper\"]\n"
    );
    assert!(parse(&doc).is_ok());
}

#[test]
fn adopted_group_member_matches_os_user_not_role_id() {
    // Namespace separation: an adopted group's member names an OS user, not a
    // role id. An adopted account contributes its `user` (OS login) to the
    // managed set, NOT its role id. So a member equal to an adopted account's
    // role id — when no managed OS user carries that name — must be rejected,
    // even though the role id exists. (A Created account named "alice" would
    // be a managed OS user "alice" and pass; that distinct case is checked
    // separately below.)
    let doc = format!(
        "{SAMPLE}\n\
         [[role_account]]\nrole = \"infra-admin\"\nuser = \"alice\"\nadopt = true\n\
         [[group]]\nname = \"wheel\"\nadopt = true\nmembers = [\"infra-admin\"]\n"
    );
    assert!(
        matches!(
            parse(&doc).unwrap_err(),
            DeclarationError::AdoptedGroupMemberUnmanaged { .. }
        ),
        "member matching an adopted account's role id (not its OS user) must be rejected"
    );
}

#[test]
fn adopted_group_member_created_os_user_named_like_role_passes() {
    // The over-permit counterpart: a Created account whose role id is "alice"
    // IS a managed OS user "alice", so an adopted group may carry it.
    let doc = format!(
        "{SAMPLE}\n\
         [[role_account]]\nrole = \"alice\"\nuid = 9030\n\
         [[group]]\nname = \"wheel\"\nadopt = true\nmembers = [\"alice\"]\n"
    );
    assert!(
        parse(&doc).is_ok(),
        "a Created account's OS login (== role id) is a managed user and may be a member"
    );
}

#[test]
fn adopted_group_adopted_user_member_passes() {
    // An adopted account's OS user name is also a managed identity.
    let doc = format!(
        "{SAMPLE}\n\
         [[role_account]]\nrole = \"infra-admin\"\nuser = \"alice\"\nadopt = true\n\
         [[group]]\nname = \"wheel\"\nadopt = true\nmembers = [\"alice\"]\n"
    );
    assert!(parse(&doc).is_ok());
}

#[test]
fn role_group_parses_and_binds() {
    let doc = format!(
        "{SAMPLE}\n[[group]]\nname = \"wheel\"\n[[role_group]]\nrole = \"oper\"\ngroup = \"wheel\"\n"
    );
    let d = parse(&doc).unwrap();
    assert_eq!(d.role_groups.len(), 1);
    assert_eq!(d.role_groups[0].role, "oper");
    assert_eq!(d.role_groups[0].group, "wheel");
}

#[test]
fn role_group_unknown_field_rejected() {
    let doc = format!(
        "{SAMPLE}\n[[group]]\nname = \"wheel\"\n[[role_group]]\nrole = \"oper\"\ngroup = \"wheel\"\nbogus = 1\n"
    );
    assert!(matches!(
        parse(&doc).unwrap_err(),
        DeclarationError::TomlParse(_)
    ));
}

#[test]
fn role_group_to_undeclared_group_rejected() {
    let doc = format!("{SAMPLE}\n[[role_group]]\nrole = \"oper\"\ngroup = \"ghost\"\n");
    assert!(matches!(
        parse(&doc).unwrap_err(),
        DeclarationError::RoleGroupUndeclaredGroup { .. }
    ));
}

#[test]
fn role_group_invalid_role_id_rejected() {
    let doc = format!(
        "{SAMPLE}\n[[group]]\nname = \"wheel\"\n[[role_group]]\nrole = \"Bad\"\ngroup = \"wheel\"\n"
    );
    assert!(matches!(
        parse(&doc).unwrap_err(),
        DeclarationError::RoleIdInvalid { .. }
    ));
}

#[test]
fn duplicate_role_group_pair_rejected() {
    let doc = format!(
        "{SAMPLE}\n[[group]]\nname = \"wheel\"\n\
         [[role_group]]\nrole = \"oper\"\ngroup = \"wheel\"\n\
         [[role_group]]\nrole = \"oper\"\ngroup = \"wheel\"\n"
    );
    assert!(matches!(
        parse(&doc).unwrap_err(),
        DeclarationError::DuplicateRoleGroup { .. }
    ));
}

#[test]
fn distinct_role_group_pairs_to_same_group_pass() {
    // many-to-one: two different roles may bind to one group.
    let doc = format!(
        "{SAMPLE}\n[[group]]\nname = \"wheel\"\n\
         [[role_group]]\nrole = \"oper\"\ngroup = \"wheel\"\n\
         [[role_group]]\nrole = \"serv\"\ngroup = \"wheel\"\n"
    );
    let d = parse(&doc).unwrap();
    assert_eq!(d.role_groups.len(), 2);
}

// ---- wording and edges ----

fn fault(doc: String) -> String {
    parse(&doc).unwrap_err().message()
}

#[test]
fn faults_say_what_is_wrong() {
    assert_eq!(
        fault(SAMPLE.replace("version = 12", "version = 0")),
        "declaration version must be >= 1, got 0"
    );
    assert_eq!(
        fault(SAMPLE.replace("[9000, 9999]", "[9999, 9000]")),
        "uid_range must be [min, max] with min <= max, got [9999, 9000]"
    );
    assert_eq!(
        fault(SAMPLE.replace("uid = 9010", "uid = 100")),
        "role \"oper\" uid 100 is outside uid_range [9000, 9999]"
    );
    assert_eq!(
        fault(SAMPLE.replace("uid = 9020", "uid = 9010")),
        "uid 9010 is used by both \"oper\" and \"serv\""
    );
    assert_eq!(
        fault(SAMPLE.replace("role = \"serv\"", "role = \"oper\"")),
        "role \"oper\" is declared more than once"
    );
    assert_eq!(
        fault(SAMPLE.replace("role = \"oper\"", "role = \"a\\tb\"")),
        "role \"a\\tb\" is not a valid role id: must be 1-16 chars, start with a-z, \
         and contain only a-z, 0-9, or '-'"
    );
    assert_eq!(
        fault(format!("{SAMPLE}\n[[role_group]]\nrole = \"oper\"\ngroup = \"ghost\"\n")),
        "role_group binds role \"oper\" to undeclared group \"ghost\""
    );
    assert_eq!(
        Declaration::parse(Err("expected `=`".to_owned()))
            .unwrap_err()
            .message(),
        "declaration TOML is invalid: expected `=`"
    );
}

#[test]
fn adoption_faults_say_what_is_wrong() {
    let account = |rest: &str| fault(format!("{SAMPLE}\n[[role_account]]\nrole = \"x\"\n{rest}"));
    assert_eq!(
        account("uid = 9030\nuser = \"alice\"\n"),
        "role \"x\" declares both uid and user (Created and Adopted are exclusive)"
    );
    assert_eq!(account(""), "role \"x\" has neither uid (Created) nor user (Adopted)");
    assert_eq!(
        account("user = \"alice\"\n"),
        "role \"x\" is an inconsistent adoption: adopt requires `user` set, `adopt = true`, \
         and no `uid`"
    );
    let group = |rest: &str| fault(format!("{SAMPLE}\n[[group]]\nname = \"wheel\"\n{rest}"));
    assert_eq!(
        group("adopt = true\ngid = 10\n"),
        "group \"wheel\" declares adopt together with a pinned gid (adoption never renumbers)"
    );
    assert_eq!(
        group("adopt = true\nmembers = [\"eve\"]\n"),
        "adopted group \"wheel\" member \"eve\" is not a Census-managed role account \
         (invariant A: cannot add a third-party user to a pre-existing group)"
    );
}

#[test]
fn names_are_held_to_their_class() {
    assert!(is_valid_role_id("a234567890123456"));
    assert!(!is_valid_role_id("a2345678901234567"));
    assert!(!is_valid_role_id("a_b"));
    assert!(is_valid_group_name("_"));
    assert!(!is_valid_group_name("-a"));
    assert!(is_valid_user_name(&"a".repeat(32)));
    assert!(!is_valid_user_name(&"a".repeat(33)));
    assert!(!is_valid_user_name("\u{e9}t\u{e9}"));
}

#[test]
fn edges_of_the_uid_range_are_in_it() {
    assert!(parse(&SAMPLE.replace("uid = 9010", "uid = 9000")).is_ok());
    assert!(parse(&SAMPLE.replace("uid = 9010", "uid = 9999")).is_ok());
    assert!(parse(&SAMPLE.replace("uid = 9010", "uid = 10000")).is_err());
}

#[test]
fn an_absolute_home_base_takes_a_slash() {
    let d = parse(&SAMPLE.replace("/var/lib/census/home\"", "/h/\"")).unwrap();
    assert_eq!(d.home_for(&d.role_accounts[1]), "/h/serv");
    assert_eq!(d.home_for(&d.role_accounts[0]), "/var/lib/census/home/oper");
}
