use colophon::heic::{date_exif, is_heic, is_raw, oriente, systeme_requis, DateHeure, RAW};

#[test]
fn une_photo_couchee_echange_ses_cotes() {
    for droit in [1, 2, 3, 4] {
        assert_eq!(oriente((4000, 3000), droit), (4000, 3000), "tag {droit}");
    }
    for couche in [5, 6, 7, 8] {
        assert_eq!(oriente((4000, 3000), couche), (3000, 4000), "tag {couche}");
    }
}

#[test]
fn un_raw_se_reconnait_a_son_extension() {
    for ext in RAW {
        assert!(is_raw(&format!("a.{ext}")), "{ext}");
        assert!(is_raw(&format!("a.{}", ext.to_uppercase())), "{ext}");
        assert!(!is_heic(&format!("a.{ext}")));
    }
    for ext in ["jpg", "jpeg", "png", "heic", "tif", "xmp", "json"] {
        assert!(!is_raw(&format!("a.{ext}")), "{ext}");
    }
    assert!(!is_raw("sans-extension"));
}

#[test]
fn une_date_exif_se_lit_dans_ses_deux_orthographes() {
    let attendu = DateHeure { annee: 2019, mois: 11, jour: 29, heure: 13, minute: 7, seconde: 45 };
    assert_eq!(date_exif("2019:11:29 13:07:45"), Some(attendu));
    assert_eq!(date_exif("2019-11-29 13:07:45"), Some(attendu));
    assert_eq!(date_exif("  2019:11:29 13:07:45 "), Some(attendu));
    assert_eq!(date_exif("0000:00:00 00:00:00"), None);
    assert_eq!(date_exif(""), None);
}

#[test]
fn le_decodeur_systeme_lit_le_heic_et_le_raw() {
    assert!(is_heic("photos/IMG_0001.HEIC"));
    assert!(is_heic("a.heif"));
    assert!(systeme_requis("a.heic"));
    assert!(systeme_requis("a.NEF"));
    assert!(!systeme_requis("a.jpg"));
    assert!(systeme_requis("photos/dossier.heic/"), "a trailing separator is not a component");
}
