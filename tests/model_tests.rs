use web_nexus_state::model::{export_types, Role, Site, SiteStatus, User, UserStatus};

fn user(roles: Vec<Role>) -> User {
    User {
        id: "u".to_string(),
        email: "u@example.com".to_string(),
        name: "U".to_string(),
        roles,
        status: UserStatus::Active,
        created_at: 0,
        last_login: None,
    }
}

#[test]
fn admin_role_is_detected() {
    assert!(user(vec![Role::ReadOnly, Role::Admin]).is_admin());
    assert!(!user(vec![Role::Content, Role::Media]).is_admin());
    assert!(!user(vec![]).is_admin());
}

#[test]
fn content_editing_roles() {
    assert!(user(vec![Role::Admin]).can_edit_content());
    assert!(user(vec![Role::Content]).can_edit_content());
    assert!(user(vec![Role::SiteEditor { site_id: "s".to_string() }]).can_edit_content());
    assert!(!user(vec![Role::Media, Role::ReadOnly]).can_edit_content());
}

#[test]
fn media_upload_roles() {
    assert!(user(vec![Role::Media]).can_upload_media());
    assert!(user(vec![Role::Content]).can_upload_media());
    assert!(user(vec![Role::ReadOnly, Role::Admin]).can_upload_media());
    assert!(!user(vec![Role::SiteEditor { site_id: "s".to_string() }]).can_upload_media());
}

#[test]
fn default_domain_uses_slug() {
    let site = Site {
        id: "s1".to_string(),
        slug: "the-band".to_string(),
        name: "The Band".to_string(),
        domain: None,
        description: None,
        owner_id: "u".to_string(),
        member_ids: vec![],
        theme: "light".to_string(),
        config: "{}".to_string(),
        status: SiteStatus::Active,
        created_at: 0,
    };
    assert_eq!(site.default_domain(), "the-band.webnexus.dev");
}

#[test]
fn typescript_declarations_describe_user() {
    let ts = export_types();
    assert!(ts.contains("export interface User {"));
    assert!(ts.contains("{ type: \"SiteEditor\", siteId: string }"));
    assert!(ts.contains("export type UserStatus = \"Active\" | \"Pending\" | \"Suspended\" | \"Deleted\";"));
}
