use bencher_core::projects::{visible_projects, QueryProject, Viewer};
use bencher_core::rbac::OsoUser;
use bencher_core::testbed::{DateTime, InsertTestbed, QueryTestbed, UpdateTestbed};
use bencher_core::slugs::{base_slug, finalize_slug};
use bencher_core::smtp::{Email, JsonSmtp, Message, MessageBody, MessagePlan, plan_message};
use bencher_core::testbed::{testbed_decision, NameIdKind, TestbedDecision};
use bencher_core::user::{InsertUser, QueryUser};

#[test]
fn superusers_are_fixed() {
    assert_eq!(OsoUser::superuser(), vec!["alice".to_string(), "charlie".to_string()]);
}

#[test]
fn new_users_are_neither_admin_nor_locked() {
    let u = InsertUser::new(
        "3e1f4c39-0000-0000-0000-000000000000".to_string(),
        "Alice".to_string(),
        "alice".to_string(),
        "alice@example.com".to_string(),
    );
    assert!(!u.admin);
    assert!(!u.locked);
    assert_eq!(u.name, "Alice");
}

#[test]
fn testbed_decisions_cover_every_naming() {
    assert_eq!(
        testbed_decision(Some(4), Some(NameIdKind::Name("x".to_string()))),
        TestbedDecision::Found(4)
    );
    assert_eq!(testbed_decision(None, None), TestbedDecision::NoSuchTestbed);
    assert_eq!(
        testbed_decision(None, Some(NameIdKind::Uuid("u".to_string()))),
        TestbedDecision::NoSuchTestbed
    );
    assert_eq!(
        testbed_decision(None, Some(NameIdKind::Slug("my-slug".to_string()))),
        TestbedDecision::Insert { name: "my-slug".to_string(), slug: Some("my-slug".to_string()) }
    );
    assert_eq!(
        testbed_decision(None, Some(NameIdKind::Name("My Box".to_string()))),
        TestbedDecision::Insert { name: "My Box".to_string(), slug: None }
    );
}

#[test]
fn user_rows_repack_only_with_sound_identifiers() {
    let row = QueryUser {
        id: 9,
        uuid: "3e1f4c39-0000-0000-0000-000000000000".to_string(),
        name: "Alice".to_string(),
        slug: "alice".to_string(),
        email: "alice@example.com".to_string(),
        admin: false,
        locked: false,
    };
    let json = row.clone().into_json(true).unwrap();
    assert_eq!(json.uuid, row.uuid);
    assert_eq!(json.name, "Alice");
    assert!(row.into_json(false).is_none());
}

#[test]
fn sorted_rows_stay_sorted_through_listing() {
    let rows = vec![
        project(2, "alpha", true),
        project(1, "beta", false),
        project(3, "gamma", true),
    ];
    let seen = visible_projects(rows, &Viewer::Anonymous);
    assert_eq!(seen.len(), 2);
    assert_eq!(seen[0].name, "alpha");
    assert_eq!(seen[1].name, "gamma");
}

#[test]
fn slug_choice_and_collision_suffix() {
    assert_eq!(base_slug("Hello World", None), "hello-world");
    assert_eq!(base_slug("Hello World", Some("custom".to_string())), "custom");
    assert_eq!(finalize_slug("foo".to_string(), false, 123), "foo");
    assert_eq!(finalize_slug("foo".to_string(), true, 123), "foo-123");
    assert_eq!(finalize_slug("foo".to_string(), true, 0), "foo-0");
}

fn project(id: i32, name: &str, public: bool) -> QueryProject {
    QueryProject {
        id,
        uuid: format!("uuid-{id}"),
        organization_id: 1,
        name: name.to_string(),
        slug: name.to_string(),
        public,
    }
}

#[test]
fn project_listing_respects_visibility() {
    let rows = vec![
        project(1, "open", true),
        project(2, "closed", false),
        project(3, "granted", false),
    ];
    let anon = visible_projects(rows, &Viewer::Anonymous);
    assert_eq!(anon.len(), 1);
    assert_eq!(anon[0].name, "open");

    let rows = vec![
        project(1, "open", true),
        project(2, "closed", false),
        project(3, "granted", false),
    ];
    let user = Viewer::User { admin: false, permitted: vec![3] };
    let seen = visible_projects(rows, &user);
    assert_eq!(seen.len(), 2);
    assert_eq!(seen[0].name, "open");
    assert_eq!(seen[1].name, "granted");

    let rows = vec![
        project(1, "open", true),
        project(2, "closed", false),
        project(3, "granted", false),
    ];
    let admin = Viewer::User { admin: true, permitted: vec![] };
    assert_eq!(visible_projects(rows, &admin).len(), 3);
}

#[test]
fn testbed_rows_carry_their_decisions() {
    let now = DateTime { seconds: 1700000000 };
    let row = InsertTestbed::from_parts(
        "tb-uuid".to_string(),
        7,
        "localhost".to_string(),
        "localhost".to_string(),
        now,
    );
    assert_eq!(row.created, row.modified);
    assert_eq!(row.project_id, 7);

    let query = QueryTestbed {
        id: 1,
        uuid: "tb-uuid".to_string(),
        project_id: 7,
        name: "localhost".to_string(),
        slug: "localhost".to_string(),
        created: now,
        modified: now,
    };
    let json = query.into_json_for_project(&project(7, "open", true));
    assert_eq!(json.project, "uuid-7");
    assert_eq!(json.name, "localhost");

    let update = UpdateTestbed::from_json(Some("renamed".to_string()), None, now);
    assert_eq!(update.name.as_deref(), Some("renamed"));
    assert_eq!(update.slug, None);
    assert_eq!(update.modified, now);
}

#[test]
fn smtp_defaults_resolve() {
    let smtp = JsonSmtp {
        hostname: "mail.example.com".to_string(),
        port: None,
        starttls: None,
        username: "mailer".to_string(),
        secret: "SECRET-REDACTED".to_string(),
        from_name: "Bencher".to_string(),
        from_email: "no-reply@example.com".to_string(),
    };
    let email = Email::from(smtp);
    assert_eq!(email.port, 587);
    assert!(email.starttls);
    assert_eq!(email.from_name.as_deref(), Some("Bencher"));

    let smtp = JsonSmtp {
        hostname: "mail.example.com".to_string(),
        port: Some(2525),
        starttls: Some(false),
        username: "mailer".to_string(),
        secret: "SECRET-REDACTED".to_string(),
        from_name: "Bencher".to_string(),
        from_email: "no-reply@example.com".to_string(),
    };
    let email = Email::from(smtp);
    assert_eq!(email.port, 2525);
    assert!(!email.starttls);
}

#[test]
fn message_plans_carry_every_decision() {
    let email = Email {
        hostname: "mail.example.com".to_string(),
        port: 587,
        starttls: true,
        username: "mailer".to_string(),
        secret: "SECRET-REDACTED".to_string(),
        from_name: Some("Bencher".to_string()),
        from_email: "no-reply@example.com".to_string(),
    };
    let message = Message {
        to_name: Some("Alice".to_string()),
        to_email: "alice@example.com".to_string(),
        subject: Some("Invitation".to_string()),
        body: Some(MessageBody { text: "hello".to_string(), html: "<p>hello</p>".to_string() }),
    };
    let plan: MessagePlan = plan_message(&email, message);
    assert_eq!(plan.from_name.as_deref(), Some("Bencher"));
    assert_eq!(plan.to_email, "alice@example.com");
    assert_eq!(plan.subject.as_deref(), Some("Invitation"));
    assert_eq!(plan.text_body.as_deref(), Some("hello"));
    assert_eq!(plan.html_body.as_deref(), Some("<p>hello</p>"));

    let message = Message {
        to_name: None,
        to_email: "alice@example.com".to_string(),
        subject: None,
        body: None,
    };
    let plan = plan_message(&email, message);
    assert_eq!(plan.to_name, None);
    assert_eq!(plan.subject, None);
    assert_eq!(plan.text_body, None);
    assert_eq!(plan.html_body, None);
}
