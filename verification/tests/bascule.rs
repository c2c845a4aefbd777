use colophon::bascule::{reporter, PlancheBasculee, Verdict};

fn planche(template: &str, epinglee: bool, photos: usize, mesuree: bool, verdict: Verdict) -> PlancheBasculee {
    PlancheBasculee { template: template.to_string(), epinglee, photos, mesuree, verdict }
}

#[test]
fn seul_un_gabarit_trahi_change_et_chaque_planche_compte_une_fois() {
    let planches = vec![
        planche("texte", false, 0, true, Verdict::Inapte),
        planche("duo", false, 2, true, Verdict::Tient),
        planche("duo", true, 2, true, Verdict::Remplace("duo_paysage".to_string())),
        planche("trio", false, 3, false, Verdict::Remplace("trio_portrait".to_string())),
        planche("quad", false, 4, true, Verdict::Inapte),
    ];
    let r = reporter(&planches);
    assert_eq!(r.gabarits, vec!["texte", "duo", "duo_paysage", "trio", "quad"]);
    assert_eq!(r.planches_inchangees, 3);
    assert_eq!(r.replis, vec![(3, "duo".to_string(), "duo_paysage".to_string())]);
    assert_eq!(r.inaptes, vec![(5, "quad".to_string())]);
    assert_eq!(r.epinglees_touchees, vec![3]);
    assert_eq!(r.planches_inchangees + r.replis.len() + r.inaptes.len(), planches.len());
}

use colophon::bascule::{basculer, replacant, AlbumPlat, Jugement, PlancheAlbum};

fn noms(v: &[&str]) -> Vec<String> {
    v.iter().map(|s| s.to_string()).collect()
}

fn planche_album(template: &str, photos: &[&str], epinglee: bool) -> PlancheAlbum {
    PlancheAlbum { template: template.to_string(), photos: noms(photos), epinglee }
}

fn tailles(entries: &[(&str, u32, u32)]) -> Vec<(String, u32, u32)> {
    entries.iter().map(|(s, w, h)| (s.to_string(), *w, *h)).collect()
}

fn tient() -> Jugement {
    Jugement { tient: true, compatibles: Vec::new(), capacites: Vec::new() }
}

fn trahie(offerts: &[(&str, usize)]) -> Jugement {
    Jugement {
        tient: false,
        compatibles: offerts.iter().map(|(n, _)| n.to_string()).collect(),
        capacites: offerts.iter().map(|(_, c)| *c).collect(),
    }
}

#[test]
fn le_replacant_garde_la_capacite_et_prefere_la_famille() {
    let offerts = noms(&["trio", "solo", "quad_pano", "duo_portrait_verso", "duo_paysage"]);
    let caps = vec![3, 1, 4, 2, 2];
    // A duo prefers a duo, the first of its family, over the first pair.
    assert_eq!(replacant("duo", &offerts, &caps, 2), Some(3));
    assert_eq!(replacant("duo_verso", &offerts, &caps, 2), Some(3));
    // No quad of its own family: the first template holding four.
    assert_eq!(replacant("quad", &noms(&["six", "trio_pano", "octo_x"]), &[6, 4, 4], 4), Some(1));
    assert_eq!(replacant("quad", &offerts, &caps, 4), Some(2));
    // Never a photograph fewer: nothing holds six, nothing is chosen.
    assert_eq!(replacant("six", &offerts, &caps, 6), None);
    assert_eq!(replacant("duo", &[], &[], 2), None);
}

#[test]
fn une_photo_sans_fiche_laisse_sa_planche_tranquille() {
    let album = AlbumPlat { trim: (210u32, 210u32), planches: vec![planche_album("duo", &["a.jpg", "inconnue.jpg"], false)] };
    let t = tailles(&[("a.jpg", 4000, 3000)]);
    let (apres, bilan) = basculer(&album, (280, 210), &t, &[trahie(&[("duo_paysage", 2)])]);
    assert_eq!(apres.planches[0].template, "duo");
    assert_eq!(bilan.tailles_manquantes, vec!["inconnue.jpg".to_string()]);
    assert!(bilan.replis.is_empty());
}

#[test]
fn une_planche_epinglee_repliee_est_nommee() {
    let album = AlbumPlat { trim: (210u32, 210u32), planches: vec![planche_album("duo", &["p1.jpg", "p2.jpg"], true)] };
    let t = tailles(&[("p1.jpg", 3000, 4000), ("p2.jpg", 3000, 4000)]);
    let j = trahie(&[("trio", 3), ("duo_portrait", 2), ("duo_etroit", 2)]);
    let (apres, bilan) = basculer(&album, (280, 210), &t, &[j]);
    assert_eq!(apres.planches[0].template, "duo_portrait");
    assert_eq!(apres.planches[0].photos.len(), 2);
    assert!(apres.planches[0].epinglee, "le drapeau ne se perd pas");
    assert_eq!(bilan.replis.len(), 1);
    assert_eq!(bilan.replis[0].1, "duo");
    assert_eq!(bilan.replis[0].2, "duo_portrait");
    assert_eq!(bilan.epinglees_touchees, vec![1], "une planche épinglée touchée se nomme");
}

#[test]
fn une_epinglee_gardee_inapte_est_nommee_ailleurs() {
    let album = AlbumPlat { trim: (210u32, 210u32), planches: vec![planche_album("solo_pano", &["pano.jpg"], true)] };
    let t = tailles(&[("pano.jpg", 2000, 6000)]);
    let (apres, bilan) = basculer(&album, (280, 210), &t, &[trahie(&[("duo", 2)])]);
    assert_eq!(apres.planches[0].template, "solo_pano", "rien ne lui a été fait");
    assert!(bilan.epinglees_touchees.is_empty(), "on ne déclare pas touché ce qu'on n'a pas touché");
    assert_eq!(bilan.inaptes.len(), 1);
    assert_eq!(bilan.inaptes[0].0, 1);
}

#[test]
fn un_quad_sans_remplacant_de_quatre_se_garde() {
    let album = AlbumPlat {
        trim: (210u32, 210u32),
        planches: vec![planche_album("quad", &["a.jpg", "b.jpg", "c.jpg", "d.jpg"], false)],
    };
    let t = tailles(&[("a.jpg", 8000, 1000), ("b.jpg", 8000, 1000), ("c.jpg", 8000, 1000), ("d.jpg", 8000, 1000)]);
    let (apres, bilan) = basculer(&album, (280, 210), &t, &[trahie(&[("trio_pano", 3)])]);
    assert_eq!(apres.planches[0].photos.len(), 4, "aucune photo ne disparaît");
    assert_eq!(apres.planches[0].template, "quad", "le gabarit se garde");
    assert!(bilan.replis.is_empty());
    assert_eq!(bilan.inaptes, vec![(1, "quad".to_string())]);
    assert_eq!(bilan.planches_inchangees, 0, "elle a bien été jugée");
}

#[test]
fn la_structure_et_le_format_traversent() {
    let album = AlbumPlat {
        trim: (210u32, 210u32),
        planches: vec![
            planche_album("duo", &["a.jpg", "b.jpg"], false),
            planche_album("full1", &["c.jpg"], false),
            planche_album("trio", &["d.jpg", "e.jpg", "f.jpg"], true),
            planche_album("texte", &[], false),
            planche_album("duo", &["x.jpg", "g.jpg"], false),
            planche_album("solo", &["a.jpg"], false),
            planche_album("solo", &["g.jpg"], false),
        ],
    };
    let t = tailles(&[
        ("a.jpg", 4000, 3000),
        ("b.jpg", 4000, 3000),
        ("c.jpg", 4000, 3000),
        ("d.jpg", 3000, 4000),
        ("e.jpg", 4000, 3000),
        ("f.jpg", 4000, 3000),
        ("x.jpg", 0, 3000),
    ]);
    let js = vec![
        tient(),
        trahie(&[("solo", 1)]),
        trahie(&[("trio_portrait", 3)]),
        trahie(&[]),
        trahie(&[("duo_paysage", 2)]),
        trahie(&[]),
        trahie(&[("solo_carre", 1)]),
    ];
    let (apres, bilan) = basculer(&album, (280, 210), &t, &js);
    assert_eq!(apres.trim, (280, 210));
    assert_eq!(apres.planches.len(), 7);
    for (av, ap) in album.planches.iter().zip(&apres.planches) {
        assert_eq!(av.photos, ap.photos);
        assert_eq!(av.epinglee, ap.epinglee);
    }
    let gabarits: Vec<&str> = apres.planches.iter().map(|p| p.template.as_str()).collect();
    assert_eq!(gabarits, vec!["duo", "solo", "trio_portrait", "texte", "duo", "solo", "solo"]);
    assert_eq!(bilan.planches, 7);
    assert_eq!(bilan.planches_inchangees, 4);
    assert_eq!(
        bilan.replis,
        vec![(2, "full1".to_string(), "solo".to_string()), (3, "trio".to_string(), "trio_portrait".to_string())]
    );
    assert_eq!(bilan.inaptes, vec![(6, "solo".to_string())]);
    assert_eq!(bilan.epinglees_touchees, vec![3]);
    // Sorted, each once: a size of zero is no size.
    assert_eq!(bilan.tailles_manquantes, vec!["g.jpg".to_string(), "x.jpg".to_string()]);
}
