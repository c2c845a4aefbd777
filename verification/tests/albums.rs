use colophon::albums::identifiant_valide;

#[test]
fn an_album_id_can_never_be_a_path() {
    for id in ["", ".", "..", ".cache", "../etc", "a/b", "a\\b", "x..y", "/etc"] {
        assert!(!identifiant_valide(id), "{id:?}");
    }
    for id in ["corse-2013", "Été 2019", "a.b"] {
        assert!(identifiant_valide(id), "{id:?}");
    }
}
