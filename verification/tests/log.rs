use colophon::log::scrub;

#[test]
fn scrub_keeps_the_name_and_drops_the_path() {
    assert_eq!(
        scrub("skip /Users/x/Été à/plage.jpg: décodage impossible"),
        "skip plage.jpg: décodage impossible"
    );
    assert_eq!(scrub(r"skip C:\Photos\Noël\a.jpg:"), "skip a.jpg:");
    // Not a path: untouched, including URLs-in-words with one slash.
    assert_eq!(scrub("analyse 12/20"), "analyse 12/20");
}

#[test]
fn a_relative_path_keeps_its_name_and_spaces_survive() {
    assert_eq!(scrub("lu dossier/sous/photo.jpg ok"), "lu photo.jpg ok");
    assert_eq!(scrub("deux  espaces"), "deux  espaces");
    assert_eq!(scrub(""), "");
    // Four words without a separator end the path's run.
    assert_eq!(scrub("/a/b un deux trois quatre /c"), "b un deux trois quatre c");
}

#[test]
fn un_message_sans_separateur_passe_tel_quel() {
    let m = "export : 3 planches,  deux  espaces et un deux-points: ok";
    assert_eq!(scrub(m), m);
    assert_eq!(scrub(""), "");
}
