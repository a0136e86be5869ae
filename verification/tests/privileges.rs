use materialize::mz_acl_item::{
    mz_acl_item_grantee, mz_acl_item_grantor, mz_acl_item_privileges, mz_validate_privileges,
    parse_multiple_privileges, AclMode, EvalError, MzAclItem, RoleId,
};

fn item() -> MzAclItem {
    MzAclItem {
        grantee: RoleId::Public,
        grantor: RoleId::System(1),
        acl_mode: parse_multiple_privileges("create, usage,DELETE,update,select,insert").unwrap(),
    }
}

#[test]
fn items_are_taken_apart() {
    assert_eq!(mz_acl_item_grantor(item()), "s1");
    assert_eq!(mz_acl_item_grantee(item()), "p");
    assert_eq!(mz_acl_item_privileges(item()), "arwdUC");
    assert_eq!(RoleId::User(20).to_text(), "u20");
}

#[test]
fn privileges_are_validated() {
    assert!(mz_validate_privileges("SELECT").unwrap());
    assert!(mz_validate_privileges(" select , Insert ").unwrap());
    let EvalError::InvalidPrivileges(e) = mz_validate_privileges("SELECT, oops\"").unwrap_err();
    assert_eq!(e, "\" oops\\\"\"");
    let EvalError::InvalidPrivileges(e) = mz_validate_privileges("").unwrap_err();
    assert_eq!(e, "\"\"");
}

#[test]
fn privileges_are_united() {
    let mode = parse_multiple_privileges("SELECT,SELECT,USAGE").unwrap();
    assert_eq!(
        mode,
        AclMode {
            insert: false,
            select: true,
            update: false,
            delete: false,
            usage: true,
            create: false,
        }
    );
    // Letters are taken by Unicode's rules.
    assert!(parse_multiple_privileges("\u{17f}elect").unwrap().select);
}
