use colophon::meta::{rating_in_header, rating_in_xmp, sidecar_names, suffixe_de_doublon, takeout_sidecar_candidates};

#[test]
fn xmp_rating_both_spellings() {
    let attr = r#"<rdf:Description xmp:Rating="4" xmp:Label="Jaune"/>"#;
    assert_eq!(rating_in_xmp(attr), Some(4));

    let elem = "<rdf:Description><xmp:Rating>5</xmp:Rating></rdf:Description>";
    assert_eq!(rating_in_xmp(elem), Some(5));

    // Rejected in Lightroom.
    assert_eq!(rating_in_xmp(r#"<x xmp:Rating="-1"/>"#), Some(-1));
    // Half stars are rounded, not refused.
    assert_eq!(rating_in_xmp(r#"<x xmp:Rating="2.5"/>"#), Some(3));
    // Zero is "never rated", not "worst photo of the folder".
    assert_eq!(rating_in_xmp(r#"<x xmp:Rating="0"/>"#), None);
    // A packet that says nothing about ratings says nothing.
    assert_eq!(rating_in_xmp("<rdf:Description rdf:about=\"\"/>"), None);
}

#[test]
fn odd_ratings_read_as_the_float_reading_does() {
    assert_eq!(rating_in_xmp(r#"<x xmp:Rating='3'/>"#), Some(3));
    assert_eq!(rating_in_xmp(r#"<x xmp:Rating = "4.4"/>"#), Some(4));
    assert_eq!(rating_in_xmp(r#"<x xmp:Rating="5.5"/>"#), None);
    assert_eq!(rating_in_xmp(r#"<x xmp:Rating="-0.6"/>"#), Some(-1));
    assert_eq!(rating_in_xmp(r#"<x xmp:Rating=".5"/>"#), Some(1));
    assert_eq!(rating_in_xmp(r#"<x xmp:Rating="1-2"/>"#), None);
    assert_eq!(rating_in_xmp(r#"<x xmp:Rating="abc"/>"#), None);
    assert_eq!(rating_in_xmp(r#"<x xmp:Rating/>"#), None);
}

#[test]
fn un_doublon_se_reconnait_a_sa_marque() {
    assert_eq!(suffixe_de_doublon("NOM(1)"), Some(("NOM".to_string(), "(1)".to_string())));
    assert_eq!(suffixe_de_doublon("d(12)"), Some(("d".to_string(), "(12)".to_string())));
    assert_eq!(suffixe_de_doublon("NOM()"), None);
    assert_eq!(suffixe_de_doublon("NOM(a)"), None);
    assert_eq!(suffixe_de_doublon("NOM"), None);
}

#[test]
fn les_cinq_orthographes_de_sidecar_takeout() {
    let c = takeout_sidecar_candidates("a.jpg");
    assert_eq!(c, ["a.jpg.json", "a.jpg.supplemental-metadata.json", "a.json"]);
    let c = takeout_sidecar_candidates("d(1).jpg");
    assert!(c.contains(&"d.jpg(1).json".to_string()), "{c:?}");
    assert!(c.contains(&"d.jpg.supplemental-metadata(1).json".to_string()), "{c:?}");
    let long = "un-nom-de-photo-vraiment-tres-long-comme-google-en-tronque.jpg";
    let c = takeout_sidecar_candidates(long);
    assert!(c.contains(&format!("{}.json", &long[..46])), "{c:?}");
    // The edited version reads its original's sidecar after its own names.
    let c = takeout_sidecar_candidates("x-edited.jpg");
    assert_eq!(c.last().unwrap(), "x.json");
    assert!(c.contains(&"x.jpg.json".to_string()));
    // Never the neighbour's.
    assert!(!takeout_sidecar_candidates("IMG_1234.jpg").contains(&"IMG_1235.jpg.json".to_string()));
}

#[test]
fn les_deux_noms_d_un_sidecar_xmp() {
    assert_eq!(sidecar_names("IMG_1234.jpg"), ["IMG_1234.xmp", "IMG_1234.jpg.xmp"]);
    assert_eq!(sidecar_names("sans"), ["sans.xmp"]);
}

#[test]
fn le_paquet_de_l_entete_se_lit_entre_ses_balises() {
    let entete = "\u{0}JFIF<x:xmpmeta><rdf:Description xmp:Rating=\"4\"/></x:xmpmeta>";
    assert_eq!(rating_in_header(entete), Some(4));
    // A rating past the packet's end is not the packet's.
    let dehors = "<x:xmpmeta><rdf:Description/></x:xmpmeta> xmp:Rating=\"5\"";
    assert_eq!(rating_in_header(dehors), None);
    // An unclosed packet, or none at all, says nothing.
    assert_eq!(rating_in_header("<x:xmpmeta xmp:Rating=\"3\""), None);
    assert_eq!(rating_in_header("xmp:Rating=\"3\""), None);
}
