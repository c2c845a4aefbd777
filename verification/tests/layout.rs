use colophon::layout::{
    chunk_size, clamp_take, dup_prefix, families_for, ouvreuse, partage_du_chapitre, Chapitre, Composer,
    Densite, Prise, PHOTOS_PER_SPREAD_X10,
};

#[test]
fn clamp_take_never_leaves_a_lonely_photo() {
    assert_eq!(clamp_take(4, 5), 3);
    assert_eq!(clamp_take(5, 8), 4);
    // taking 2 of 3 would leave a lonely photo: drop to 1, leaving 2
    assert_eq!(clamp_take(2, 3), 1);
    assert_eq!(clamp_take(1, 1), 1);
    // 8 of 9 would leave a lonely photo too: 6 + 3 instead
    assert_eq!(clamp_take(8, 9), 6);
}

#[test]
fn chunk_size_follows_the_rhythm_without_a_lonely_leftover() {
    assert_eq!(chunk_size(3, 0, Densite::Equilibree), 3);
    assert_eq!(chunk_size(5, 0, Densite::Equilibree), 3);
    assert_eq!(chunk_size(7, 0, Densite::Equilibree), 4);
    assert_eq!(chunk_size(20, 0, Densite::Equilibree), 2);
    assert_eq!(chunk_size(20, 4, Densite::Equilibree), 6);
    assert_eq!(chunk_size(9, 7, Densite::Equilibree), 6, "8 of 9 would leave one");
    assert_eq!(chunk_size(0, 3, Densite::Dense), 1);
    for beat in 0..20 {
        for remaining in 2..40 {
            let t = chunk_size(remaining, beat, Densite::Dense);
            assert_ne!(remaining - t, 1);
            assert!(!families_for(t).is_empty());
        }
    }
}

#[test]
fn every_pace_names_itself_back() {
    for d in Densite::toutes() {
        assert_eq!(Densite::par_id(d.id()), Some(d));
    }
    assert_eq!(Densite::par_id("inconnue"), None);
    assert_eq!(Densite::Aeree.nom(), "Aérée");
    assert!(Densite::Equilibree.about().contains("par défaut"));
    assert!(Densite::Equilibree.is_default());
    assert!(!Densite::Dense.is_default());
    assert_eq!(Densite::offertes(), &[Densite::Aeree, Densite::Equilibree]);
}

#[test]
fn the_rhythms_and_their_averages() {
    assert_eq!(Densite::Equilibree.rhythm(), &[2, 3, 4, 2, 6, 3, 2, 8, 4, 3]);
    assert_eq!(Densite::Aeree.photos_per_spread_x10(), 21);
    assert_eq!(Densite::Equilibree.photos_per_spread_x10(), 37);
    assert_eq!(Densite::Dense.photos_per_spread_x10(), 52);
    assert_eq!(PHOTOS_PER_SPREAD_X10, 37);
    assert_eq!(PHOTOS_PER_SPREAD_X10, Densite::Equilibree.photos_per_spread_x10());
    for d in Densite::toutes() {
        assert!(d.min_break_spacing() < d.force_full_after());
        assert!(d.force_full_after() <= 6);
    }
}

#[test]
fn families_hold_only_layable_sizes() {
    assert_eq!(families_for(3), &["trio", "trio_portrait"]);
    assert_eq!(families_for(8), &["octo"]);
    assert!(families_for(5).is_empty());
    assert!(families_for(7).is_empty());
}

#[test]
fn the_composer_owes_a_breathing_page_and_pays_it() {
    let mut c = Composer::avec_densite(Densite::Aeree);
    assert_eq!(c.prise(0, 10, false, true, false), Prise::Ouverture);
    assert_eq!(c.prise(0, 10, false, false, false), Prise::Grille);
    for _ in 0..3 {
        c.avancer("duo", 2);
    }
    assert_eq!(c.depuis_respiration(), 3);
    assert_eq!(c.prise(5, 10, false, false, false), Prise::Respiration);
    assert_eq!(c.prise(5, 10, false, false, true), Prise::Vedette);
    assert_eq!(c.prise(5, 2, false, false, false), Prise::Grille, "two left go together");
    assert_eq!(c.famille_bloquee(), Some("duo".to_string()));
    c.avancer("solo", 1);
    assert_eq!(c.depuis_respiration(), 0);
    assert_eq!(c.beats(), 4);
    assert_eq!(c.famille_bloquee(), None);
    c.avancer("duo_verso", 2);
    c.avancer("duo", 2);
    c.avancer("duo_verso", 2);
    assert_eq!(c.famille_bloquee(), Some("duo".to_string()), "a verso is its recto's family");
    assert_eq!(Composer::new().densite(), Densite::Equilibree);
}

#[test]
fn a_chapter_never_composes_into_one_spread() {
    assert_eq!(partage_du_chapitre(0, 5, 5), 3);
    assert_eq!(partage_du_chapitre(0, 4, 4), 2);
    assert_eq!(partage_du_chapitre(0, 1, 1), 1);
    assert_eq!(partage_du_chapitre(3, 4, 4), 4, "only the chapter's opening grid");
    assert_eq!(clamp_take(partage_du_chapitre(0, 5, 5), 5), 3);
}

#[test]
fn les_beats_impairs_retournent_la_mise_en_page() {
    let mut c = Composer::new();
    assert_eq!(c.with_flip("full1"), "full1");
    c.avancer("full1", 1);
    assert_eq!(c.with_flip("full1"), "full1_verso");
    assert_eq!(c.with_flip("trio"), "trio_verso");
    // A symmetric layout has no verso to flip to.
    assert_eq!(c.with_flip("duo"), "duo");
    c.avancer("duo", 2);
    assert_eq!(c.with_flip("full1"), "full1");
}

#[test]
fn le_prefixe_s_arrete_avant_la_premiere_jumelle() {
    // Photo 2 is a near-twin of photo 0: the spread keeps photos 0 and 1.
    let t = vec![vec![], vec![false], vec![true, false], vec![false, false, false]];
    assert_eq!(dup_prefix(&t), 2);
    let libre = vec![vec![], vec![false], vec![false, false]];
    assert_eq!(dup_prefix(&libre), 3);
    assert_eq!(dup_prefix(&[]), 1);
    assert_eq!(dup_prefix(&[vec![], vec![true]]), 1);
}

fn matrice(n: usize, paires: &[(usize, usize)]) -> Vec<Vec<bool>> {
    let mut m = vec![vec![false; n]; n];
    for &(a, b) in paires {
        m[a][b] = true;
    }
    m
}

#[test]
fn a_chapter_places_every_photo_once() {
    // Five photos, 1 and 2 twins (given one way round only).
    let mut ch = Chapitre::new(5, matrice(5, &[(2, 1)]));
    let mut c = Composer::new();
    assert_eq!(ch.reste(), 5);
    assert!(ch.sont_jumeaux(1, 2) && ch.sont_jumeaux(2, 1));
    assert!(!ch.sont_jumeaux(0, 1));
    // The strongest photo, the fourth, is brought to open the chapter.
    ch.regrouper(&[3]);
    assert_eq!((0..5).map(|k| ch.suivante(k)).collect::<Vec<_>>(), vec![3, 0, 1, 2, 4]);
    let s = c.placer(&mut ch, Prise::Ouverture, 1, "full1", &[0]);
    assert_eq!(s.photos, vec![3]);
    assert_eq!(s.template, "full1");
    assert_eq!(s.prise, Prise::Ouverture);
    assert_eq!(c.beats(), 1);
    assert_eq!(c.depuis_respiration(), 0);
    // 0, 1, 2 would hold the twins together: the run stops before 2.
    assert_eq!(ch.prefixe_sans_jumeaux(), 2);
    // A grid gathers 0 and 4, the twin drifts to a later spread.
    ch.regrouper(&[0, 3]);
    assert_eq!((0..4).map(|k| ch.suivante(k)).collect::<Vec<_>>(), vec![0, 4, 1, 2]);
    let s = c.placer(&mut ch, Prise::Grille, 2, "duo_verso", &[1, 0]);
    assert_eq!(s.photos, vec![4, 0]);
    assert_eq!(c.depuis_respiration(), 1);
    assert_eq!(ch.prefixe_sans_jumeaux(), 1);
    let s = c.placer(&mut ch, Prise::Grille, 1, "solo", &[0]);
    assert_eq!(s.photos, vec![1]);
    let s = c.placer(&mut ch, Prise::Grille, 1, "solo_verso", &[0]);
    assert_eq!(s.photos, vec![2]);
    assert_eq!(ch.reste(), 0);
    assert_eq!(ch.prefixe_sans_jumeaux(), 0);
    assert_eq!(c.beats(), 4);
}

#[test]
fn an_empty_chapter_has_nothing_to_place() {
    let ch = Chapitre::new(0, Vec::new());
    assert_eq!(ch.reste(), 0);
    assert_eq!(ch.prefixe_sans_jumeaux(), 0);
}

#[test]
fn a_grid_gathers_one_class_and_leaves_the_twin_behind() {
    // Six photos: 1 and 2 twins; 3 of another aspect class.
    let ch = Chapitre::new(6, matrice(6, &[(1, 2)]));
    let classes = [3, 3, 3, 1, 3, 3];
    // Room for four: 0 and 1, not 2 (the twin of 1), not 3 (a panorama), then 4 and 5.
    assert_eq!(ch.choisir_grille(&classes, 4), vec![0, 1, 4, 5]);
    // Room for two: the first two of the class.
    assert_eq!(ch.choisir_grille(&classes, 2), vec![0, 1]);
    let choix = ch.choisir_grille(&classes, 4);
    let mut ch = ch;
    ch.regrouper(&choix);
    assert_eq!((0..6).map(|k| ch.suivante(k)).collect::<Vec<_>>(), vec![0, 1, 4, 5, 2, 3]);
    // The gathered four share no twin; the fifth is the twin of the second.
    assert_eq!(ch.prefixe_sans_jumeaux(), 4);
}

#[test]
fn a_chapter_opens_on_its_strongest_page() {
    // Too few photographs to open on one.
    assert_eq!(ouvreuse(&[true, true, true], &[true, true, true]), None);
    // The earliest strong one that holds a page wins over an earlier strong one that does not.
    assert_eq!(ouvreuse(&[false, true, false, true, false], &[true, false, false, true, true]), Some(3));
    // None holds a page: the earliest strong one still opens.
    assert_eq!(ouvreuse(&[false, true, false, true], &[true, false, false, false]), Some(1));
    assert_eq!(ouvreuse(&[false; 4], &[true; 4]), None);
}
