use i18n_md_email_templates::{Catalog, Json};

fn object(members: Vec<(&str, Json)>) -> Json {
    Json::Object(members.into_iter().map(|(k, v)| (k.to_string(), v)).collect())
}

fn text(s: &str) -> Json {
    Json::Text(s.to_string())
}

#[test]
fn catalog_falls_back_per_key() {
    let cat = Catalog::new(
        vec![
            (
                "en".to_string(),
                object(vec![(
                    "invite",
                    object(vec![("subject", text("Invited")), ("body", text("Hello"))]),
                )]),
            ),
            (
                "es".to_string(),
                object(vec![("invite", object(vec![("subject", text("Invitado"))]))]),
            ),
        ],
        "en",
    );
    // Present in es.
    assert_eq!(cat.get("es", "invite.subject").as_deref(), Some("Invitado"));
    // Missing in es -> falls back to en.
    assert_eq!(cat.get("es", "invite.body").as_deref(), Some("Hello"));
    // Unknown locale -> falls back to en entirely.
    assert_eq!(cat.get("zz", "invite.subject").as_deref(), Some("Invited"));
    // Unknown key -> None.
    assert_eq!(cat.get("en", "invite.missing"), None);
}

#[test]
fn catalog_only_strings_are_answers() {
    let cat = Catalog::new(
        vec![(
            "en".to_string(),
            object(vec![
                ("n", Json::Other),
                ("o", object(vec![("x", text("X"))])),
                ("s", text("S")),
            ]),
        )],
        "en",
    );
    assert_eq!(cat.get("en", "n"), None);
    assert_eq!(cat.get("en", "o"), None);
    assert_eq!(cat.get("en", "o.x").as_deref(), Some("X"));
    assert_eq!(cat.get("en", "s").as_deref(), Some("S"));
    // Stepping into a string or past the end finds nothing.
    assert_eq!(cat.get("en", "s.more"), None);
    assert_eq!(cat.get("en", "o.x."), None);
    assert_eq!(cat.get("en", ""), None);
}

#[test]
fn catalog_empty_name_segments_are_names_too() {
    let cat = Catalog::new(
        vec![(
            "en".to_string(),
            object(vec![("", object(vec![("a", text("A"))]))]),
        )],
        "en",
    );
    assert_eq!(cat.get("en", ".a").as_deref(), Some("A"));
}

#[test]
fn catalog_last_duplicate_counts() {
    let cat = Catalog::new(
        vec![
            ("en".to_string(), object(vec![("k", text("first"))])),
            ("en".to_string(), object(vec![("k", text("second")), ("k", text("third"))])),
        ],
        "en",
    );
    assert_eq!(cat.get("en", "k").as_deref(), Some("third"));
}

#[test]
fn catalog_missing_everywhere_is_none() {
    let cat = Catalog::new(vec![], "en");
    assert_eq!(cat.get("en", "a"), None);
    assert_eq!(cat.get("fr", "a"), None);
}
