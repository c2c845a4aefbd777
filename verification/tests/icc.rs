use colophon::icc::{parse, ErreurIcc};

/// A profile header written by hand: the size it declares, the `acsp`
/// signature, a version, a class and a colour space.
fn profil(space: &[u8; 4], taille: usize) -> Vec<u8> {
    let mut d = vec![0u8; taille];
    d[0..4].copy_from_slice(&(taille as u32).to_be_bytes());
    d[8] = 2;
    d[12..16].copy_from_slice(b"mntr");
    d[16..20].copy_from_slice(space);
    d[20..24].copy_from_slice(b"XYZ ");
    d[36..40].copy_from_slice(b"acsp");
    d
}

#[test]
fn a_broken_profile_is_refused() {
    assert!(parse(b"<!DOCTYPE html>").is_err());
    let mut bad = profil(b"RGB ", 3144);
    bad[36] = b'x';
    assert!(matches!(parse(&bad), Err(ErreurIcc::SansSignature)), "signature acsp non vérifiée");
    let bon = profil(b"RGB ", 3144);
    let short = &bon[..bon.len() - 1];
    assert!(matches!(parse(short), Err(ErreurIcc::TailleAnnoncee { annonce: 3144, reelle: 3143 })), "taille non vérifiée");
    assert!(matches!(parse(&bon[..100]), Err(ErreurIcc::Tronque(100))));
}

#[test]
fn a_well_formed_header_reads_back() {
    let h = parse(&profil(b"RGB ", 3144)).expect("profil lisible");
    assert_eq!(&h.class, b"mntr");
    assert_eq!(&h.space, b"RGB ");
    assert_eq!(&h.pcs, b"XYZ ");
    assert!(h.version_major <= 4);
    assert_eq!(h.components().unwrap(), 3);
    assert_eq!(h.size, 3144);
}

#[test]
fn each_colour_space_has_its_colorants() {
    assert_eq!(parse(&profil(b"GRAY", 200)).unwrap().components().unwrap(), 1);
    assert_eq!(parse(&profil(b"CMYK", 200)).unwrap().components().unwrap(), 4);
    assert!(matches!(
        parse(&profil(b"Lab ", 200)).unwrap().components(),
        Err(ErreurIcc::EspaceNonGere(s)) if &s == b"Lab "
    ));
}
