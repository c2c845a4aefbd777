use colophon::colophon::liste;
use colophon::cover::{cover_title, titre_du_livre};
use colophon::garde::majuscule;

#[test]
fn a_list_joins_with_a_word() {
    assert_eq!(liste(&["a".into()]), "a");
    assert_eq!(liste(&["a".into(), "b".into()]), "a et b");
    assert_eq!(liste(&["a".into(), "b".into(), "c".into()]), "a, b et c");
    assert_eq!(liste(&[]), "");
}

#[test]
fn the_book_wears_the_covers_title_when_it_has_one() {
    let album = "corse-2013";
    assert_eq!(titre_du_livre(album, None), "corse-2013");
    assert_eq!(titre_du_livre(album, Some("Un été")), "Un été");
    // A cover left blank falls back to the album, it never prints nothing.
    assert_eq!(titre_du_livre(album, Some("   ")), "corse-2013");
}

#[test]
fn the_sheet_reads_the_cover_it_renders() {
    assert_eq!(cover_title("corse-2013", ""), "corse-2013");
    assert_eq!(cover_title("corse-2013", "Un été"), "Un été");
}

#[test]
fn une_ligne_prend_sa_majuscule() {
    assert_eq!(majuscule("octobre 2013"), "Octobre 2013");
    assert_eq!(majuscule("été 2019"), "Été 2019");
    assert_eq!(majuscule("ßa"), "SSa");
    assert_eq!(majuscule(""), "");
}
