use colophon::font::{
    faces_du_fichier, fichier_de_police, extraire_pour_album, face_count, sfnt_dir, somme_sfnt, table, table_range, Embarquee, Face,
    Genre, Metrics, Refus, Utilises, MACROMAN_HAUT, POLICE_OTF, POLICE_TTF,
};
use colophon::octets::{u16b, u32b};

fn tag(t: &[u8; 4]) -> u32 {
    u32::from_be_bytes(*t)
}

/// The character map a synthetic face carries.
#[derive(Clone, Copy)]
enum Cmap {
    Format4,
    Format12,
    Symbole,
    Format0,
    SansInterro,
    Aucune,
}

/// A font file written byte by byte.
struct Fonte {
    tag: [u8; 4],
    upem: u16,
    fs_type: u16,
    famille: String,
    style: String,
    postscript: Option<String>,
    plateformes: &'static [u16],
    cmap: Cmap,
    contours: Option<[u8; 4]>,
    variable: bool,
    bitmap: bool,
    autre_langue: Option<(u16, String)>,
    gras: usize,
    bagage: Vec<([u8; 4], usize)>,
}

const NUM_GLYPHS: u16 = 256;
const CHASSE: u16 = 1024;

impl Fonte {
    fn neuve() -> Self {
        Fonte {
            tag: *b"\x00\x01\x00\x00",
            upem: 2048,
            fs_type: 0,
            famille: "Colophon Test".into(),
            style: "Regular".into(),
            postscript: Some("ColophonTest-Regular".into()),
            plateformes: &[3],
            cmap: Cmap::Format4,
            contours: Some(*b"glyf"),
            variable: false,
            bitmap: false,
            autre_langue: None,
            gras: 64,
            bagage: Vec::new(),
        }
    }

    fn loca(&self) -> Vec<u8> {
        let mut v = vec![0u8; usize::from(NUM_GLYPHS) * 2];
        v.extend_from_slice(&((self.gras / 2) as u16).to_be_bytes());
        v
    }

    fn head(&self) -> Vec<u8> {
        let mut v = vec![0u8; 54];
        v[0..4].copy_from_slice(&0x0001_0000u32.to_be_bytes());
        v[12..16].copy_from_slice(&0x5F0F_3CF5u32.to_be_bytes());
        v[18..20].copy_from_slice(&self.upem.to_be_bytes());
        v[36..38].copy_from_slice(&(-100i16).to_be_bytes());
        v[38..40].copy_from_slice(&(-500i16).to_be_bytes());
        v[40..42].copy_from_slice(&2000i16.to_be_bytes());
        v[42..44].copy_from_slice(&1800i16.to_be_bytes());
        v
    }

    fn hhea(&self) -> Vec<u8> {
        let mut v = vec![0u8; 36];
        v[0..4].copy_from_slice(&0x0001_0000u32.to_be_bytes());
        v[4..6].copy_from_slice(&1500i16.to_be_bytes());
        v[6..8].copy_from_slice(&(-300i16).to_be_bytes());
        v[34..36].copy_from_slice(&NUM_GLYPHS.to_be_bytes());
        v
    }

    fn hmtx(&self) -> Vec<u8> {
        let mut v = Vec::new();
        for _ in 0..NUM_GLYPHS {
            v.extend_from_slice(&CHASSE.to_be_bytes());
            v.extend_from_slice(&0i16.to_be_bytes());
        }
        v
    }

    fn maxp(&self) -> Vec<u8> {
        let mut v = Vec::new();
        v.extend_from_slice(&0x0000_5000u32.to_be_bytes());
        v.extend_from_slice(&NUM_GLYPHS.to_be_bytes());
        v
    }

    fn os2(&self) -> Vec<u8> {
        let mut v = vec![0u8; 96];
        v[0..2].copy_from_slice(&2u16.to_be_bytes());
        v[8..10].copy_from_slice(&self.fs_type.to_be_bytes());
        v[68..70].copy_from_slice(&1600i16.to_be_bytes());
        v[70..72].copy_from_slice(&(-400i16).to_be_bytes());
        v[88..90].copy_from_slice(&1400i16.to_be_bytes());
        v
    }

    fn post(&self) -> Vec<u8> {
        let mut v = vec![0u8; 32];
        v[0..4].copy_from_slice(&0x0003_0000u32.to_be_bytes());
        v
    }

    fn name(&self) -> Vec<u8> {
        let mut entrees: Vec<(u16, u16, u16, Vec<u8>)> = Vec::new();
        for &p in self.plateformes {
            let encode = |s: &str| -> Vec<u8> {
                if p == 1 {
                    s.chars()
                        .map(|c| {
                            if (c as u32) < 0x80 {
                                c as u8
                            } else {
                                MACROMAN_HAUT
                                    .chars()
                                    .position(|m| m == c)
                                    .map(|i| (i + 0x80) as u8)
                                    .unwrap_or(b'?')
                            }
                        })
                        .collect()
                } else {
                    s.encode_utf16().flat_map(u16::to_be_bytes).collect()
                }
            };
            let anglais = if p == 1 { 0 } else { 0x0409 };
            if let Some((langue, autre)) = &self.autre_langue {
                entrees.push((p, *langue, 1, encode(autre)));
            }
            entrees.push((p, anglais, 1, encode(&self.famille)));
            entrees.push((p, anglais, 2, encode(&self.style)));
            if let Some(ps) = &self.postscript {
                entrees.push((p, anglais, 6, encode(ps)));
            }
        }
        let debut = 6 + entrees.len() * 12;
        let (mut records, mut storage) = (Vec::new(), Vec::new());
        for (p, langue, id, bytes) in &entrees {
            let off = storage.len();
            storage.extend_from_slice(bytes);
            records.extend_from_slice(&p.to_be_bytes());
            records.extend_from_slice(&(if *p == 1 { 0u16 } else { 1 }).to_be_bytes());
            records.extend_from_slice(&langue.to_be_bytes());
            records.extend_from_slice(&id.to_be_bytes());
            records.extend_from_slice(&(bytes.len() as u16).to_be_bytes());
            records.extend_from_slice(&(off as u16).to_be_bytes());
        }
        let mut v = Vec::new();
        v.extend_from_slice(&0u16.to_be_bytes());
        v.extend_from_slice(&(entrees.len() as u16).to_be_bytes());
        v.extend_from_slice(&(debut as u16).to_be_bytes());
        v.extend_from_slice(&records);
        v.extend_from_slice(&storage);
        v
    }

    fn cmap(&self) -> Option<Vec<u8>> {
        let (plateforme, encodage, sub) = match self.cmap {
            Cmap::Aucune => return None,
            Cmap::Format4 => (3u16, 1u16, sous_table_4()),
            Cmap::Format12 => (3, 10, sous_table_12()),
            Cmap::Symbole => (3, 0, sous_table_4()),
            Cmap::Format0 => (3, 1, sous_table_0()),
            Cmap::SansInterro => (3, 1, sous_table_4_depuis(0x0041)),
        };
        let mut v = Vec::new();
        v.extend_from_slice(&0u16.to_be_bytes());
        v.extend_from_slice(&1u16.to_be_bytes());
        v.extend_from_slice(&plateforme.to_be_bytes());
        v.extend_from_slice(&encodage.to_be_bytes());
        v.extend_from_slice(&12u32.to_be_bytes());
        v.extend_from_slice(&sub);
        Some(v)
    }

    fn tables(&self) -> Vec<([u8; 4], Vec<u8>)> {
        let mut t: Vec<([u8; 4], Vec<u8>)> =
            vec![(*b"name", self.name()), (*b"OS/2", self.os2()), (*b"post", self.post())];
        if self.bitmap {
            t.push((*b"bhed", self.head()));
            t.push((*b"bdat", vec![0x2a; self.gras]));
            t.push((*b"bloc", vec![0u8; 16]));
        } else {
            t.push((*b"head", self.head()));
            t.push((*b"hhea", self.hhea()));
            t.push((*b"hmtx", self.hmtx()));
            t.push((*b"maxp", self.maxp()));
        }
        if let Some(c) = self.cmap() {
            t.push((*b"cmap", c));
        }
        if let Some(tag) = self.contours.filter(|_| !self.bitmap) {
            t.push((tag, vec![0x2a; self.gras]));
            if &tag == b"glyf" {
                t.push((*b"loca", self.loca()));
            }
        }
        if self.variable {
            t.push((*b"fvar", vec![0u8; 16]));
        }
        for (tag, poids) in &self.bagage {
            t.push((*tag, vec![0x5a; *poids]));
        }
        t.sort_by_key(|(tag, _)| *tag);
        t
    }
}

fn sous_table_4() -> Vec<u8> {
    sous_table_4_depuis(0x0020)
}

fn sous_table_4_depuis(debut: u16) -> Vec<u8> {
    let mut v = Vec::new();
    for n in [4u16, 32, 0, 4, 4, 1, 0] {
        v.extend_from_slice(&n.to_be_bytes());
    }
    v.extend_from_slice(&0x00FFu16.to_be_bytes());
    v.extend_from_slice(&0xFFFFu16.to_be_bytes());
    v.extend_from_slice(&0u16.to_be_bytes());
    v.extend_from_slice(&debut.to_be_bytes());
    v.extend_from_slice(&0xFFFFu16.to_be_bytes());
    v.extend_from_slice(&(1i32 - i32::from(debut)).to_be_bytes()[2..]);
    v.extend_from_slice(&1i16.to_be_bytes());
    v.extend_from_slice(&0u16.to_be_bytes());
    v.extend_from_slice(&0u16.to_be_bytes());
    v
}

fn sous_table_12() -> Vec<u8> {
    let mut v = Vec::new();
    v.extend_from_slice(&12u16.to_be_bytes());
    v.extend_from_slice(&0u16.to_be_bytes());
    for n in [28u32, 0, 1, 0x20, 0xFF, 1] {
        v.extend_from_slice(&n.to_be_bytes());
    }
    v
}

fn sous_table_0() -> Vec<u8> {
    let mut v = vec![0u8; 262];
    v[2..4].copy_from_slice(&262u16.to_be_bytes());
    for (i, slot) in v[6..262].iter_mut().enumerate() {
        *slot = i as u8;
    }
    v
}

fn fichier(faces: &[Fonte]) -> Vec<u8> {
    let jeux: Vec<Vec<([u8; 4], Vec<u8>)>> = faces.iter().map(Fonte::tables).collect();
    let ttc = faces.len() > 1;
    let mut curseur = if ttc { 12 + faces.len() * 4 } else { 0 };
    let mut dirs = Vec::new();
    for tables in &jeux {
        dirs.push(curseur);
        curseur += 12 + tables.len() * 16;
    }
    let mut out = vec![0u8; curseur];
    if ttc {
        out[0..4].copy_from_slice(b"ttcf");
        out[4..8].copy_from_slice(&0x0002_0000u32.to_be_bytes());
        out[8..12].copy_from_slice(&(faces.len() as u32).to_be_bytes());
        for (i, d) in dirs.iter().enumerate() {
            out[12 + i * 4..16 + i * 4].copy_from_slice(&(*d as u32).to_be_bytes());
        }
    }
    for (fi, tables) in jeux.iter().enumerate() {
        let dir = dirs[fi];
        out[dir..dir + 4].copy_from_slice(&faces[fi].tag);
        out[dir + 4..dir + 6].copy_from_slice(&(tables.len() as u16).to_be_bytes());
        for (ti, (tag, data)) in tables.iter().enumerate() {
            while out.len() % 4 != 0 {
                out.push(0);
            }
            let off = out.len();
            out.extend_from_slice(data);
            let rec = dir + 12 + ti * 16;
            out[rec..rec + 4].copy_from_slice(tag);
            out[rec + 8..rec + 12].copy_from_slice(&(off as u32).to_be_bytes());
            out[rec + 12..rec + 16].copy_from_slice(&(data.len() as u32).to_be_bytes());
        }
    }
    out
}

fn record(data: &[u8], dir: usize, tag: &[u8; 4]) -> usize {
    let count = usize::from(u16b(data, dir + 4).unwrap());
    (0..count)
        .map(|i| dir + 12 + i * 16)
        .find(|r| &data[*r..*r + 4] == tag)
        .expect("table présente")
}

fn chasse(data: &[u8], index: u32) -> i32 {
    let face = Embarquee::depuis(data.to_vec(), index).expect("face ouverte pour écrire");
    let poses = face.glyphes("A");
    assert_eq!(poses.len(), 1);
    face.avance(poses[0].0)
}

fn tags(data: &[u8]) -> Vec<String> {
    let count = usize::from(u16b(data, 4).unwrap());
    (0..count)
        .map(|i| String::from_utf8_lossy(&data[12 + i * 16..16 + i * 16]).into_owned())
        .collect()
}

fn identiques(a: &Metrics, b: &Metrics) {
    assert_eq!(
        (a.bbox, a.ascent, a.descent, a.cap_height, a.italic_angle, a.fs_type),
        (b.bbox, b.ascent, b.descent, b.cap_height, b.italic_angle, b.fs_type)
    );
}

fn avances(e: &Embarquee) -> Vec<i32> {
    (0..NUM_GLYPHS).map(|g| e.avance(g)).collect()
}

#[test]
fn une_ttf_synthetique_se_lit_en_entier() {
    let data = fichier(&[Fonte::neuve()]);
    let f = Face::parse(&data, 0).expect("face lisible");
    assert_eq!(f.postscript, "ColophonTest-Regular");
    assert_eq!(f.nom, "Colophon Test Regular");
    assert_eq!(f.famille, "Colophon Test", "la famille seule, pour le sélecteur");

    assert_eq!(f.genre, Some(Genre::Glyf));
    assert!(!f.variable);
    assert!(f.embeddable());
    assert!(!f.sous_ensemblage_interdit);

    let m = f.metrics.expect("métriques");
    assert_eq!(chasse(&data, 0), 500);
    assert_eq!(m.bbox, [-49, -244, 977, 879]);
    assert_eq!((m.ascent, m.descent, m.cap_height), (781, -195, 684));

    let r = record(&data, 0, b"head");
    let mut casse = data.clone();
    casse[r + 8..r + 12].copy_from_slice(&0xDEAD_BEEFu32.to_be_bytes());
    assert_eq!(Face::parse(&casse, 0).err(), Some(Refus::Illisible));

    let r = record(&data, 0, b"hmtx");
    let mut deborde = data.clone();
    deborde[r + 12..r + 16].copy_from_slice(&u32::MAX.to_be_bytes());
    assert!(table(&deborde, 0, tag(b"hmtx")).is_none());
    assert_eq!(Face::parse(&deborde, 0).err(), Some(Refus::Illisible));
}

#[test]
fn une_collection_rend_ses_deux_faces() {
    let mut une = Fonte::neuve();
    une.famille = "Colophon Une".into();
    une.postscript = Some("ColophonUne-Regular".into());
    let mut deux = Fonte::neuve();
    deux.famille = "Colophon Deux".into();
    deux.style = "Italic".into();
    deux.postscript = Some("ColophonDeux-Italic".into());
    deux.upem = 1000;

    let data = fichier(&[une, deux]);
    assert_eq!(face_count(&data), 2);
    assert!(sfnt_dir(&data, 0).unwrap() > 0, "le répertoire suit l'en-tête ttcf");

    let f0 = Face::parse(&data, 0).expect("face 0");
    let f1 = Face::parse(&data, 1).expect("face 1");
    assert_eq!((f0.index, f1.index), (0, 1));
    assert_eq!(f0.nom, "Colophon Une Regular");
    assert_eq!(f1.nom, "Colophon Deux Italic");
    assert_eq!(f0.postscript, "ColophonUne-Regular");
    assert_eq!(f1.postscript, "ColophonDeux-Italic");
    assert!(f0.metrics.is_some() && f1.metrics.is_some());
    assert_eq!((chasse(&data, 0), chasse(&data, 1)), (500, 1024));
    assert_eq!(Face::parse(&data, 2).err(), Some(Refus::Illisible), "il n'y a pas de face 2");
}

#[test]
fn les_verdicts_d_embarquement_sortent_leurs_codes() {
    let verdict = |fs_type: u16| {
        let mut f = Fonte::neuve();
        f.fs_type = fs_type;
        Face::parse(&fichier(&[f]), 0).expect("face lisible")
    };
    assert_eq!(verdict(0x0002).refus, Some(Refus::EmbarquementInterdit));
    assert_eq!(verdict(0x0200).refus, Some(Refus::BitmapSeulement));
    assert!(verdict(0x0004).embeddable());
    assert!(!verdict(0x0004).sous_ensemblage_interdit);
    let entiere = verdict(0x0100);
    assert!(entiere.embeddable());
    assert!(entiere.sous_ensemblage_interdit);

    let mut symbole = Fonte::neuve();
    symbole.cmap = Cmap::Symbole;
    let s = Face::parse(&fichier(&[symbole]), 0).unwrap();
    assert_eq!(s.refus, Some(Refus::CmapIllisible));
    assert!(s.metrics.is_none());
    assert_eq!(s.nom, "Colophon Test Regular");

    for cmap in [Cmap::Format0, Cmap::Aucune] {
        let mut f = Fonte::neuve();
        f.cmap = cmap;
        let lue = Face::parse(&fichier(&[f]), 0).unwrap();
        assert_eq!(lue.refus, Some(Refus::CmapIllisible));
    }

    let mut bitmap = Fonte::neuve();
    bitmap.contours = None;
    let bm = Face::parse(&fichier(&[bitmap]), 0).unwrap();
    assert_eq!(bm.refus, Some(Refus::BitmapSeulement));
    assert_eq!(bm.genre, None);

    let mut apple = Fonte::neuve();
    apple.bitmap = true;
    let a = Face::parse(&fichier(&[apple]), 0).unwrap();
    assert_eq!(a.refus, Some(Refus::BitmapSeulement));
    assert_eq!(a.nom, "Colophon Test Regular");
    assert!(a.metrics.is_none());

    let entier = fichier(&[Fonte::neuve()]);
    assert_eq!(Face::parse(&entier[..40], 0).err(), Some(Refus::Illisible));
    assert_eq!(Face::parse(b"pas une police", 0).err(), Some(Refus::Illisible));
    assert_eq!(Face::parse(&[], 0).err(), Some(Refus::Illisible));

    assert!(verdict(0x0000).embeddable());
    assert_eq!(Refus::EmbarquementInterdit.code(), "embarquement_interdit");
    assert_eq!(Refus::CmapIllisible.code(), "cmap_illisible");
}

#[test]
fn otto_se_lit_et_fvar_marque_la_variable() {
    let mut otto = Fonte::neuve();
    otto.tag = *b"OTTO";
    otto.contours = Some(*b"CFF ");
    let f = Face::parse(&fichier(&[otto]), 0).expect("OTTO lisible");
    assert_eq!(f.genre, Some(Genre::Cff));
    assert_eq!(f.genre.unwrap().code(), "cff");
    assert!(f.embeddable());
    assert!(f.metrics.is_some(), "métriques par les tables communes");

    let mut var = Fonte::neuve();
    var.variable = true;
    var.cmap = Cmap::Format12;
    let v = Face::parse(&fichier(&[var]), 0).expect("variable lisible");
    assert!(v.variable);
    assert!(v.embeddable());
    assert!(v.metrics.is_some(), "l'instance par défaut se mesure");
}

#[test]
fn le_nom_se_lit_des_deux_plateformes() {
    assert_eq!(MACROMAN_HAUT.chars().count(), 128, "la moitié haute de MacRoman");

    let mut windows = Fonte::neuve();
    windows.plateformes = &[3];
    let f = Face::parse(&fichier(&[windows]), 0).unwrap();
    assert_eq!(f.postscript, "ColophonTest-Regular");
    assert!(!f.nom.contains('\0'), "UTF-16BE décodé, pas recopié : {:?}", f.nom);

    let mut mac = Fonte::neuve();
    mac.plateformes = &[1];
    mac.famille = "Colophon Été".into();
    let f = Face::parse(&fichier(&[mac]), 0).unwrap();
    assert_eq!(f.nom, "Colophon Été Regular");
    assert_eq!(f.postscript, "ColophonTest-Regular");

    let mut polyglotte = Fonte::neuve();
    polyglotte.autre_langue = Some((0x0404, "Colophon 標準體".into()));
    let f = Face::parse(&fichier(&[polyglotte]), 0).unwrap();
    assert_eq!(f.nom, "Colophon Test Regular");

    let mut deux = Fonte::neuve();
    deux.plateformes = &[3, 1];
    let f = Face::parse(&fichier(&[deux]), 0).unwrap();
    assert_eq!(f.nom, "Colophon Test Regular");

    let mut muette = Fonte::neuve();
    muette.plateformes = &[];
    assert_eq!(Face::parse(&fichier(&[muette]), 0).err(), Some(Refus::Illisible));
}

#[test]
fn une_face_extraite_se_relit_a_l_identique() {
    let data = fichier(&[Fonte::neuve()]);
    let avant = Face::parse(&data, 0).expect("face lisible");
    let sortie = Face::extraire(&data, 0).expect("extraction");
    let apres = Face::parse(&sortie, 0).expect("la face extraite se relit");

    assert_eq!(face_count(&sortie), 1, "un fichier, une face");
    assert_eq!(&sortie[0..4], b"\x00\x01\x00\x00", "la signature de la face");
    assert_eq!((apres.nom, apres.postscript), (avant.nom, avant.postscript));
    assert_eq!(apres.genre, Some(Genre::Glyf));
    identiques(&avant.metrics.unwrap(), &apres.metrics.unwrap());
    let ouverte = |d: &[u8]| Embarquee::depuis(d.to_vec(), 0).expect("face ouverte");
    assert_eq!(avances(&ouverte(&data)), avances(&ouverte(&sortie)), "les chasses");

    assert_eq!(
        tags(&sortie),
        ["OS/2", "cmap", "glyf", "head", "hhea", "hmtx", "loca", "maxp", "name", "post"],
        "trié par tag, et rien d'autre"
    );
}

#[test]
fn une_face_de_collection_sort_seule() {
    let mut une = Fonte::neuve();
    une.famille = "Colophon Une".into();
    let mut deux = Fonte::neuve();
    deux.famille = "Colophon Deux".into();
    deux.style = "Italic".into();
    deux.postscript = Some("ColophonDeux-Italic".into());
    deux.upem = 1000;

    let data = fichier(&[une, deux]);
    let sortie = Face::extraire(&data, 1).expect("la face 1 sort de sa collection");
    assert_ne!(&sortie[0..4], b"ttcf", "un sfnt, plus une collection");
    assert_eq!(face_count(&sortie), 1);

    let f = Face::parse(&sortie, 0).expect("relue");
    assert_eq!(f.nom, "Colophon Deux Italic");
    assert_eq!(f.postscript, "ColophonDeux-Italic");
    assert!(f.metrics.is_some());
    assert_eq!(chasse(&sortie, 0), 1024);
    assert_eq!(
        Face::parse(&sortie, 1).err(),
        Some(Refus::Illisible),
        "il n'y a plus de face 1 dans ce fichier"
    );
}

#[test]
fn une_face_refusee_ne_se_pose_pas_a_cote_dun_album() {
    let mut interdite = Fonte::neuve();
    interdite.fs_type = 0x0002;
    assert_eq!(
        extraire_pour_album(&fichier(&[interdite]), 0).err(),
        Some(Refus::EmbarquementInterdit)
    );
}

#[test]
fn une_face_cff_sappelle_autrement() {
    let mut cff = Fonte::neuve();
    cff.tag = *b"OTTO";
    cff.contours = Some(*b"CFF ");
    let data = fichier(&[cff]);
    assert_eq!(Face::parse(&data, 0).unwrap().genre, Some(Genre::Cff));
    assert_eq!(extraire_pour_album(&data, 0).expect("extraction").0, POLICE_OTF);
    assert_eq!(extraire_pour_album(&fichier(&[Fonte::neuve()]), 0).expect("extraction").0, POLICE_TTF);
}

#[test]
fn les_tables_ecartees_le_sont_vraiment() {
    let mut lourde = Fonte::neuve();
    lourde.bagage = vec![
        (*b"GSUB", 4096),
        (*b"GPOS", 4096),
        (*b"DSIG", 2048),
        (*b"sbix", 8192),
        (*b"kern", 512),
        (*b"morx", 512),
    ];
    let data = fichier(&[lourde]);
    let sortie = Face::extraire(&data, 0).expect("extraction");
    for t in ["GSUB", "GPOS", "DSIG", "sbix", "kern", "morx"] {
        assert!(!tags(&sortie).contains(&t.to_string()), "{t} a suivi la face");
    }
    assert!(
        data.len() - sortie.len() > 19_000,
        "{} octets de moins seulement",
        data.len() - sortie.len()
    );
    assert_eq!(Face::parse(&sortie, 0).unwrap().genre, Some(Genre::Glyf));

    let mut var = Fonte::neuve();
    var.variable = true;
    let variable = fichier(&[var]);
    let sortie = Face::extraire(&variable, 0).expect("extraction");
    let f = Face::parse(&sortie, 0).expect("relue");
    assert!(!f.variable, "les axes ne suivent pas");
    identiques(&Face::parse(&variable, 0).unwrap().metrics.unwrap(), &f.metrics.unwrap());
}

#[test]
fn le_fichier_emis_est_un_vrai_fichier_de_police() {
    let data = fichier(&[Fonte::neuve()]);
    let out = Face::extraire(&data, 0).expect("extraction");

    let n = usize::from(u16b(&out, 4).unwrap());
    let mut ordonnes = tags(&out);
    ordonnes.sort();
    assert_eq!(tags(&out), ordonnes, "le répertoire est trié par tag");
    let selector = usize::from(u16b(&out, 8).unwrap());
    assert!(1 << selector <= n && 1 << (selector + 1) > n, "{n} tables, sélecteur {selector}");
    assert_eq!(u16b(&out, 6).unwrap(), (16 << selector) as u16);
    assert_eq!(u16b(&out, 10).unwrap(), (n * 16) as u16 - u16b(&out, 6).unwrap());

    assert_eq!(out.len() % 4, 0, "le fichier entier est aligné");
    let head = table_range(&out, 0, tag(b"head")).unwrap().0;
    let mut zero = out.clone();
    zero[head + 8..head + 12].copy_from_slice(&0u32.to_be_bytes());
    for i in 0..n {
        let rec = 12 + i * 16;
        let off = u32b(&out, rec + 8).unwrap() as usize;
        let len = u32b(&out, rec + 12).unwrap() as usize;
        assert_eq!(off % 4, 0, "{} n'est pas alignée", tags(&out)[i]);
        assert!(off + len <= out.len(), "{} déborde", tags(&out)[i]);
        assert_eq!(
            u32b(&out, rec + 4).unwrap(),
            somme_sfnt(&zero[off..off + len.next_multiple_of(4)]),
            "somme de contrôle de {}",
            tags(&out)[i]
        );
    }
    assert_eq!(
        u32b(&out, head + 8).unwrap(),
        0xB1B0_AFBAu32.wrapping_sub(somme_sfnt(&zero)),
        "l'ajustement du fichier entier"
    );
    assert_ne!(u32b(&out, head + 8).unwrap(), 0, "elle est calculée, pas laissée vide");
}

#[test]
fn le_cff2_se_refuse_a_la_lecture_comme_a_l_extraction() {
    let mut cff2 = Fonte::neuve();
    cff2.tag = *b"OTTO";
    cff2.contours = Some(*b"CFF2");
    cff2.variable = true;
    let data = fichier(&[cff2]);
    let f = Face::parse(&data, 0).expect("elle se lit, et se nomme");
    assert_eq!(f.genre, Some(Genre::Cff2));
    assert_eq!(f.genre.unwrap().code(), "cff2");
    assert_eq!(f.refus, Some(Refus::FormatNonEmbarquable));
    assert!(!f.embeddable());
    assert_eq!(f.nom, "Colophon Test Regular", "refusée, et nommée quand même");
    assert_eq!(Face::extraire(&data, 0).err(), Some(Refus::FormatNonEmbarquable));

    let mut cff = Fonte::neuve();
    cff.tag = *b"OTTO";
    cff.contours = Some(*b"CFF ");
    let data = fichier(&[cff]);
    let sortie = Face::extraire(&data, 0).expect("un OTTO s'extrait");
    assert_eq!(&sortie[0..4], b"OTTO", "la signature de la face, jamais la nôtre");
    assert!(tags(&sortie).contains(&"CFF ".to_string()));
    assert!(!tags(&sortie).contains(&"loca".to_string()), "un CFF n'a pas de loca");
    assert_eq!(Face::parse(&sortie, 0).unwrap().genre, Some(Genre::Cff));

    let mut interdite = Fonte::neuve();
    interdite.fs_type = 0x0002;
    let data = fichier(&[interdite]);
    assert_eq!(Face::extraire(&data, 0).err(), Some(Refus::EmbarquementInterdit));
}

#[test]
fn un_fichier_hostile_ne_fait_jamais_paniquer() {
    let data = fichier(&[Fonte::neuve()]);
    for n in 0..=data.len() {
        let _ = Face::parse(&data[..n], 0);
        let _ = Face::extraire(&data[..n], 0);
        let _ = face_count(&data[..n]);
    }
    for i in (0..data.len()).step_by(7) {
        let mut mute = data.clone();
        mute[i] ^= 0xFF;
        let _ = Face::parse(&mute, 0);
        let _ = Face::parse(&mute, 1);
        let _ = Face::extraire(&mute, 0);
        let _ = Face::extraire(&mute, 1);
    }
    let mut ttc = fichier(&[Fonte::neuve(), Fonte::neuve()]);
    ttc[8..12].copy_from_slice(&u32::MAX.to_be_bytes());
    assert!(face_count(&ttc) as usize <= ttc.len() / 4);
    for i in 0..face_count(&ttc).min(8) {
        let _ = Face::parse(&ttc, i);
    }
}

#[test]
fn un_caractere_absent_devient_un_point_dinterrogation_ou_rien() {
    let face = Embarquee::depuis(fichier(&[Fonte::neuve()]), 0).expect("face ouverte");
    let interro = face.glyphes("?");
    assert_eq!(interro.len(), 1);
    let absent = face.glyphes("→");
    assert_eq!(absent, interro, "un caractère absent se dessine en ?");
    assert_eq!(absent[0].1, '?', "et c'est ce que le ToUnicode dira");
    assert_eq!(face.avance(absent[0].0), face.avance(interro[0].0));

    let mut sans = Fonte::neuve();
    sans.cmap = Cmap::SansInterro;
    let face = Embarquee::depuis(fichier(&[sans]), 0).expect("face ouverte");
    assert!(face.glyphes("?").is_empty(), "rien à dessiner, rien de dessiné");
    assert_eq!(face.glyphes("A?B").len(), 2, "seul le caractère perdu tombe");
}

#[test]
fn les_glyphes_utilises_se_notent_une_fois_chacun() {
    let mut u = Utilises::new();
    assert!(u.is_empty());
    u.noter(7, 'b');
    u.noter(3, 'a');
    u.noter(7, 'c');
    assert!(!u.is_empty());
    assert_eq!(u.iter(), vec![(3, 'a'), (7, 'b')], "par glyphe, le premier caractère gardé");
}

#[test]
fn le_format_cmap_douze_resout_ses_groupes() {
    let mut var = Fonte::neuve();
    var.cmap = Cmap::Format12;
    let face = Embarquee::depuis(fichier(&[var]), 0).expect("face ouverte");
    let a = face.glyphes("A");
    assert_eq!(a.len(), 1);
    assert_eq!(a[0].0, u16::from(b'A') - 0x20 + 1, "premier caractère du groupe sur le glyphe un");
}

#[test]
fn seuls_les_fichiers_de_police_s_ouvrent() {
    for nom in ["Arial.ttf", "Helvetica.TTC", "x.otf", "y.OTC"] {
        assert!(fichier_de_police(nom), "{nom}");
    }
    for nom in [".cache.ttf", "lisezmoi.txt", "sans", "ttf", "police.ttf.bak"] {
        assert!(!fichier_de_police(nom), "{nom}");
    }
}

#[test]
fn un_fichier_rend_toutes_ses_faces_refusees_comprises() {
    let mut deux = Fonte::neuve();
    deux.fs_type = 0x0002;
    let faces = faces_du_fichier(&fichier(&[Fonte::neuve(), deux]));
    assert_eq!(faces.len(), 2);
    assert_eq!(faces[0].refus, None);
    assert_eq!(faces[1].refus, Some(Refus::EmbarquementInterdit));
    let rien = faces_du_fichier(b"pas une police");
    assert_eq!(rien.len(), 1);
    assert_eq!(rien[0].refus, Some(Refus::Illisible));
    assert_eq!(rien[0].index, 0);
}
