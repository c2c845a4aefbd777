use colophon::rapport::verifier_url_de_rapport;

/// Anything else, scheme included, is refused before any process spawns.
#[test]
fn report_url_guard_refuses_anything_but_the_issue_form() {
    assert!(verifier_url_de_rapport("https://example.com/x").is_err());
    assert!(verifier_url_de_rapport(
        "http://github.com/alexis-morain/colophon/issues/new?template=1-bug.yml"
    )
    .is_err());
    assert!(verifier_url_de_rapport("https://github.com/autre/depot/issues/new").is_err());
}

#[test]
fn le_formulaire_du_depot_passe() {
    assert_eq!(
        verifier_url_de_rapport(
            "https://github.com/alexis-morain/colophon/issues/new?template=1-bug.yml"
        ),
        Ok(())
    );
    assert_eq!(
        verifier_url_de_rapport("https://github.com/alexis-morain/colophon/issues/new"),
        Ok(())
    );
}

#[test]
fn le_refus_nomme_l_url() {
    assert_eq!(
        verifier_url_de_rapport("https://example.com/x"),
        Err("URL hors du dépôt : https://example.com/x".to_string())
    );
    assert!(verifier_url_de_rapport("").is_err());
    assert!(verifier_url_de_rapport("https://github.com/alexis-morain/colophon/issues/ne").is_err());
}
