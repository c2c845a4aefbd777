use colophon::imposition::{faces, ordre, Cote, Page};

#[test]
fn l_imposition_pose_le_faux_titre_en_page_un() {
    let pages = ordre(48);
    assert_eq!(pages.len(), 96, "48 planches font 96 pages");
    assert_eq!(pages[0], Page::Planche(0, Cote::Droite), "p1 est un recto");
    assert_eq!(pages[1], Page::Planche(1, Cote::Gauche), "p2");
    assert_eq!(pages[2], Page::Planche(1, Cote::Droite), "p3");
    assert_eq!(pages[93], Page::Planche(47, Cote::Gauche), "p94");
    assert_eq!(pages[94], Page::Planche(47, Cote::Droite), "p95, le colophon");
    assert_eq!(pages[95], Page::Blanche, "p96, le verso du colophon");

    assert!(!pages.contains(&Page::Planche(0, Cote::Gauche)));
    for p in 1..48 {
        assert!(pages.contains(&Page::Planche(p, Cote::Gauche)), "{p} à gauche");
        assert!(pages.contains(&Page::Planche(p, Cote::Droite)), "{p} à droite");
    }
    for (i, p) in pages.iter().enumerate() {
        if let Page::Planche(planche, Cote::Gauche) = p {
            assert_eq!(pages[i + 1], Page::Planche(*planche, Cote::Droite), "p{}", i + 1);
        }
    }
    let recto = |i: usize| (i + 1) % 2 == 1;
    assert!(recto(0) && recto(94));
    assert!(ordre(0).is_empty(), "un album sans planche n'a pas de blanche");
}

#[test]
fn la_premiere_planche_ne_donne_que_son_recto() {
    assert_eq!(faces(0), &[Cote::Droite]);
    assert_eq!(faces(3), &[Cote::Gauche, Cote::Droite]);
    assert_eq!(ordre(1), vec![Page::Planche(0, Cote::Droite), Page::Blanche]);
}
