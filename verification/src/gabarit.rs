//! The grammar of generated template names. A generated template's name is
//! its whole declaration, `g_<left>_<right>` plus `_b<mm>` when it reserves
//! a caption band, `_verso` for its mirror: so an `album.json` carried to
//! another machine still names exactly the layout it was composed with.
//! Turning a layout into millimetre rectangles is the renderer's business.

use vstd::prelude::*;
use crate::chaines::{caracteres, chaine, concat, tranche, egales, en_decimal, decimal, valeur, que_des_chiffres};

verus! {

/// The cell shapes a generated name can ask for, one letter each.
#[derive(Debug, Clone, Copy, PartialEq, Eq, Structural)]
pub enum Ratio {
    /// 1:2, `e`.
    Etroit,
    /// 3:4, `q`.
    Portrait,
    /// 1:1, `c`.
    Carre,
    /// 4:3, `l`.
    Paysage,
    /// 2:1, `n`.
    Pano,
    /// The raw cell shape, `f`.
    Libre,
}

/// What covers one page of a spread.
#[derive(Debug, Clone, Copy, PartialEq, Eq, Structural)]
pub enum Page {
    /// Nothing.
    Vide,
    /// One photo, full bleed.
    Pleine,
    /// `cols` × `rangs` cells in the margined box.
    Grille { cols: usize, rangs: usize, ratio: Ratio },
}

/// How slot indices run across the two pages.
#[derive(Debug, Clone, Copy, PartialEq, Eq, Structural)]
pub enum Ordre {
    /// Left page's cells, then the right page's.
    ParPage,
    /// Row by row across the whole spread.
    ParRangee,
}

/// A template read back from its generated name.
#[derive(Debug, Clone, Copy, PartialEq, Eq, Structural)]
pub struct Genere {
    pub capacite: usize,
    pub gauche: Page,
    pub droite: Page,
    pub ordre: Ordre,
    /// The caption band, in whole millimetres; 0 when none is declared.
    pub bande_mm: u32,
}

pub open spec fn lettre(r: Ratio) -> char {
    match r {
        Ratio::Etroit => 'e',
        Ratio::Portrait => 'q',
        Ratio::Carre => 'c',
        Ratio::Paysage => 'l',
        Ratio::Pano => 'n',
        Ratio::Libre => 'f',
    }
}

pub open spec fn ratio_de(c: char) -> Option<Ratio> {
    if c == 'e' { Some(Ratio::Etroit) }
    else if c == 'q' { Some(Ratio::Portrait) }
    else if c == 'c' { Some(Ratio::Carre) }
    else if c == 'l' { Some(Ratio::Paysage) }
    else if c == 'n' { Some(Ratio::Pano) }
    else if c == 'f' { Some(Ratio::Libre) }
    else { None }
}

/// A page's cell count.
pub open spec fn capacite_de(p: Page) -> nat {
    match p {
        Page::Vide => 0,
        Page::Pleine => 1,
        Page::Grille { cols, rangs, .. } => (cols * rangs) as nat,
    }
}

/// A page a generated name can carry: grids of one to nine columns and
/// rows.
pub open spec fn page_bornee(p: Page) -> bool {
    match p {
        Page::Grille { cols, rangs, .. } => 1 <= cols <= 9 && 1 <= rangs <= 9,
        _ => true,
    }
}

/// A page's code: `v`, `p`, or `<cols>x<rangs><letter>`.
pub open spec fn code_de(p: Page) -> Seq<char> {
    match p {
        Page::Vide => seq!['v'],
        Page::Pleine => seq!['p'],
        Page::Grille { cols, rangs, ratio } => decimal(cols as nat) + seq!['x'] + decimal(rangs as nat) + seq![lettre(ratio)],
    }
}

/// A generated name: `g_<left>_<right>`, then `_b<mm>` when a band is
/// declared.
pub open spec fn nom_de(gauche: Page, droite: Page, bande_mm: u32) -> Seq<char> {
    let base = seq!['g', '_'] + code_de(gauche) + seq!['_'] + code_de(droite);
    if bande_mm > 0 { base + seq!['_', 'b'] + decimal(bande_mm as nat) } else { base }
}

/// What an unsigned integer parse reads: an optional `+`, then decimal
/// digits, at least one.
pub open spec fn entier_lu(s: Seq<char>) -> Option<nat> {
    let t = if s.len() > 0 && s[0] == '+' { s.drop_first() } else { s };
    if t.len() > 0 && que_des_chiffres(t) { Some(valeur(t)) } else { None }
}

/// The first `c` of `s`.
pub open spec fn premier(s: Seq<char>, c: char) -> Option<int>
    decreases s.len(),
{
    if s.len() == 0 {
        None
    } else if s[0] == c {
        Some(0)
    } else {
        match premier(s.drop_first(), c) {
            Some(k) => Some(k + 1),
            None => None,
        }
    }
}

/// The page a code names, if it names one.
pub open spec fn page_lue(code: Seq<char>) -> Option<Page> {
    if code == seq!['v'] {
        Some(Page::Vide)
    } else if code == seq!['p'] {
        Some(Page::Pleine)
    } else if code.len() == 0 {
        None
    } else {
        match ratio_de(code.last()) {
            None => None,
            Some(ratio) => {
                let dims = code.drop_last();
                match premier(dims, 'x') {
                    None => None,
                    Some(k) => match (entier_lu(dims.subrange(0, k)), entier_lu(dims.subrange(k + 1, dims.len() as int))) {
                        (Some(cols), Some(rangs)) => if 1 <= cols <= 9 && 1 <= rangs <= 9 {
                            Some(Page::Grille { cols: cols as usize, rangs: rangs as usize, ratio })
                        } else {
                            None
                        },
                        _ => None,
                    },
                }
            },
        }
    }
}

/// A code whose last character is not ASCII: splitting its last byte off
/// would cut a character in two.
pub open spec fn code_coupe(code: Seq<char>) -> bool {
    code != seq!['v'] && code != seq!['p'] && code.len() > 0 && (code.last() as u32) >= 0x80
}

/// `s` cut at every `c`, empty pieces included (`split`).
pub open spec fn morceaux(s: Seq<char>, c: char) -> Seq<Seq<char>>
    decreases s.len(),
{
    if s.len() == 0 {
        seq![Seq::empty()]
    } else {
        let r = morceaux(s.drop_last(), c);
        if s.last() == c {
            r.push(Seq::empty())
        } else {
            r.update(r.len() - 1, r.last().push(s.last()))
        }
    }
}

pub proof fn lemme_morceaux_non_vide(s: Seq<char>, c: char)
    ensures
        morceaux(s, c).len() >= 1,
    decreases s.len(),
{
    if s.len() > 0 {
        lemme_morceaux_non_vide(s.drop_last(), c);
    }
}

/// The name without its `_verso`, and whether it had one.
pub open spec fn sans_verso(nom: Seq<char>) -> (Seq<char>, bool) {
    if nom.len() >= 6 && nom.subrange(nom.len() - 6, nom.len() as int) == seq!['_', 'v', 'e', 'r', 's', 'o'] {
        (nom.subrange(0, nom.len() - 6), true)
    } else {
        (nom, false)
    }
}

/// The name's pieces, `_verso` aside.
pub open spec fn pieces(nom: Seq<char>) -> Seq<Seq<char>> {
    morceaux(sans_verso(nom).0, '_')
}

/// A name whose reading would cut a character in two: what the parser
/// refuses to be asked.
pub open spec fn nom_coupe(nom: Seq<char>) -> bool {
    let p = pieces(nom);
    p[0] == seq!['g'] && p.len() >= 2
        && (code_coupe(p[1]) || (page_lue(p[1]) is Some && p.len() >= 3 && code_coupe(p[2])))
}

/// The template a generated name declares, if the name speaks the grammar.
pub open spec fn genere_de(nom: Seq<char>) -> Option<Genere> {
    let (corps, verso) = sans_verso(nom);
    let p = morceaux(corps, '_');
    if p[0] != seq!['g'] || p.len() < 3 || p.len() > 4 {
        None
    } else {
        match (page_lue(p[1]), page_lue(p[2])) {
            (Some(g), Some(d)) => {
                let bande: Option<nat> = if p.len() == 3 {
                    Some(0nat)
                } else if p[3].len() > 0 && p[3][0] == 'b' {
                    match entier_lu(p[3].drop_first()) {
                        Some(v) => if v <= u32::MAX { Some(v) } else { None },
                        None => None,
                    }
                } else {
                    None
                };
                match bande {
                    None => None,
                    Some(b) => {
                        let capacite = capacite_de(g) + capacite_de(d);
                        if capacite == 0 || (verso && g == d) {
                            None
                        } else if verso {
                            Some(Genere { capacite: capacite as usize, gauche: d, droite: g, ordre: Ordre::ParPage, bande_mm: b as u32 })
                        } else {
                            Some(Genere { capacite: capacite as usize, gauche: g, droite: d, ordre: Ordre::ParPage, bande_mm: b as u32 })
                        }
                    },
                }
            },
            _ => None,
        }
    }
}

impl Ratio {
    /// The ratio's letter in a generated name.
    pub fn code(self) -> (c: char)
        ensures
            c == lettre(self),
    {
        match self {
            Ratio::Etroit => 'e',
            Ratio::Portrait => 'q',
            Ratio::Carre => 'c',
            Ratio::Paysage => 'l',
            Ratio::Pano => 'n',
            Ratio::Libre => 'f',
        }
    }
}

fn ratio_lu(c: char) -> (r: Option<Ratio>)
    ensures
        r == ratio_de(c),
{
    if c == 'e' { Some(Ratio::Etroit) }
    else if c == 'q' { Some(Ratio::Portrait) }
    else if c == 'c' { Some(Ratio::Carre) }
    else if c == 'l' { Some(Ratio::Paysage) }
    else if c == 'n' { Some(Ratio::Pano) }
    else if c == 'f' { Some(Ratio::Libre) }
    else { None }
}

/// A page's cell count.
pub fn capacite_page(p: &Page) -> (n: usize)
    requires
        capacite_de(*p) <= usize::MAX,
    ensures
        n == capacite_de(*p),
{
    match p {
        Page::Vide => 0,
        Page::Pleine => 1,
        Page::Grille { cols, rangs, .. } => *cols * *rangs,
    }
}

fn code_en_caracteres(p: &Page) -> (r: Vec<char>)
    ensures
        r@ == code_de(*p),
{
    match p {
        Page::Vide => {
            let mut v = Vec::new();
            v.push('v');
            assert(v@ =~= seq!['v']);
            v
        },
        Page::Pleine => {
            let mut v = Vec::new();
            v.push('p');
            assert(v@ =~= seq!['p']);
            v
        },
        Page::Grille { cols, rangs, ratio } => {
            let a = concat(en_decimal(*cols as u64).as_slice(), &['x']);
            let b = concat(a.as_slice(), en_decimal(*rangs as u64).as_slice());
            let mut c = b;
            c.push(ratio.code());
            assert(c@ =~= decimal(*cols as nat) + seq!['x'] + decimal(*rangs as nat) + seq![lettre(*ratio)]);
            c
        },
    }
}

/// A page's code: `v`, `p`, or `<cols>x<rangs><letter>`.
pub fn code_page(p: &Page) -> (s: String)
    ensures
        s@ == code_de(*p),
{
    chaine(code_en_caracteres(p).as_slice())
}

/// The generated name of a pair of pages and a caption band.
pub fn nom_genere(gauche: &Page, droite: &Page, bande_mm: u32) -> (s: String)
    ensures
        s@ == nom_de(*gauche, *droite, bande_mm),
{
    let a = concat(&['g', '_'], code_en_caracteres(gauche).as_slice());
    let b = concat(a.as_slice(), &['_']);
    let c = concat(b.as_slice(), code_en_caracteres(droite).as_slice());
    if bande_mm > 0 {
        let d = concat(c.as_slice(), &['_', 'b']);
        let e = concat(d.as_slice(), en_decimal(bande_mm as u64).as_slice());
        chaine(e.as_slice())
    } else {
        chaine(c.as_slice())
    }
}

/// The largest value an integer read here needs to tell apart: anything
/// past it is refused as a band and as a page size.
pub const PLAFOND_LU: u64 = 0x1_0000_0000;

/// An unsigned integer as the parser reads it, capped at [`PLAFOND_LU`].
fn entier(s: &[char]) -> (r: Option<u64>)
    ensures
        match entier_lu(s@) {
            None => r is None,
            Some(v) => r == Some(if v < PLAFOND_LU { v as u64 } else { PLAFOND_LU }),
        },
{
    let debut: usize = if s.len() > 0 && s[0] == '+' { 1 } else { 0 };
    let t = tranche(s, debut, s.len());
    proof {
        if debut == 1 {
            assert(t@ =~= s@.drop_first());
        } else {
            assert(t@ =~= s@);
        }
    }
    if t.len() == 0 {
        return None;
    }
    let mut v: u64 = 0;
    let mut k: usize = 0;
    while k < t.len()
        invariant
            t@ == (if s@.len() > 0 && s@[0] == '+' { s@.drop_first() } else { s@ }),
            t@.len() > 0,
            k <= t@.len(),
            forall|j: int| 0 <= j < k ==> crate::chaines::est_chiffre(#[trigger] t@[j]),
            v == if valeur(t@.subrange(0, k as int)) < PLAFOND_LU { valeur(t@.subrange(0, k as int)) } else { PLAFOND_LU as nat },
        decreases t.len() - k,
    {
        if !('0' <= t[k] && t[k] <= '9') {
            assert(!crate::chaines::est_chiffre(t@[k as int]));
            return None;
        }
        proof {
            let u = t@.subrange(0, k as int + 1);
            assert(u.drop_last() =~= t@.subrange(0, k as int));
        }
        let chiffre = (t[k] as u32 - '0' as u32) as u64;
        v = v * 10 + chiffre;
        if v > PLAFOND_LU {
            v = PLAFOND_LU;
        }
        k = k + 1;
    }
    assert(t@.subrange(0, k as int) =~= t@);
    Some(v)
}

fn premier_de(s: &Vec<char>, c: char) -> (r: Option<usize>)
    ensures
        r matches Some(k) ==> premier(s@, c) == Some(k as int),
        r is None ==> premier(s@, c) is None,
{
    let mut k: usize = 0;
    assert(s@.subrange(0, s@.len() as int) =~= s@);
    proof {
        match premier(s@, c) {
            Some(q) => assert(q + 0 == q),
            None => {},
        }
    }
    while k < s.len() && s[k] != c
        invariant
            k <= s@.len(),
            premier(s@, c) == match premier(s@.subrange(k as int, s@.len() as int), c) {
                Some(q) => Some(q + k),
                None => None,
            },
        decreases s.len() - k,
    {
        assert(s@.subrange(k as int, s@.len() as int).drop_first() =~= s@.subrange(k + 1, s@.len() as int));
        k = k + 1;
    }
    if k == s.len() {
        assert(s@.subrange(k as int, s@.len() as int).len() == 0);
        None
    } else {
        assert(s@.subrange(k as int, s@.len() as int)[0] == s@[k as int]);
        Some(k)
    }
}

fn page_de(code: &Vec<char>) -> (r: Option<Page>)
    ensures
        r == page_lue(code@),
{
    if code.len() == 1 && code[0] == 'v' {
        assert(code@ =~= seq!['v']);
        return Some(Page::Vide);
    }
    if code.len() == 1 && code[0] == 'p' {
        assert(code@ =~= seq!['p']);
        return Some(Page::Pleine);
    }
    proof {
        if code@ == seq!['v'] || code@ == seq!['p'] {
            assert(code@.len() == 1);
        }
    }
    if code.len() == 0 {
        return None;
    }
    let ratio = match ratio_lu(code[code.len() - 1]) {
        Some(r) => r,
        None => return None,
    };
    let dims = tranche(code.as_slice(), 0, code.len() - 1);
    assert(dims@ =~= code@.drop_last());
    let k = match premier_de(&dims, 'x') {
        Some(k) => k,
        None => return None,
    };
    proof {
        lemme_premier(dims@, 'x');
    }
    let cols = entier(tranche(dims.as_slice(), 0, k).as_slice());
    let rangs = entier(tranche(dims.as_slice(), k + 1, dims.len()).as_slice());
    match (cols, rangs) {
        (Some(c), Some(r)) => {
            if 1 <= c && c <= 9 && 1 <= r && r <= 9 {
                Some(Page::Grille { cols: c as usize, rangs: r as usize, ratio })
            } else {
                None
            }
        },
        _ => None,
    }
}

pub proof fn lemme_page_lue_bornee(code: Seq<char>)
    ensures
        page_lue(code) matches Some(p) ==> page_bornee(p) && capacite_de(p) <= 81,
{
    if let Some(p) = page_lue(code) {
        if let Page::Grille { cols, rangs, .. } = p {
            assert(cols * rangs <= 81) by (nonlinear_arith)
                requires
                    1 <= cols <= 9,
                    1 <= rangs <= 9;
        }
    }
}

pub proof fn lemme_premier(s: Seq<char>, c: char)
    ensures
        premier(s, c) matches Some(k) ==> 0 <= k < s.len() && s[k] == c,
    decreases s.len(),
{
    if s.len() > 0 && s[0] != c {
        lemme_premier(s.drop_first(), c);
    }
}

fn couper(v: &Vec<char>, c: char) -> (r: Vec<Vec<char>>)
    ensures
        r@.len() == morceaux(v@, c).len(),
        forall|i: int| 0 <= i < r@.len() ==> (#[trigger] r@[i])@ == morceaux(v@, c)[i],
{
    let mut faits: Vec<Vec<char>> = Vec::new();
    let mut cur: Vec<char> = Vec::new();
    let mut k: usize = 0;
    proof {
        assert(v@.subrange(0, 0) =~= Seq::<char>::empty());
    }
    while k < v.len()
        invariant
            k <= v@.len(),
            faits@.len() + 1 == morceaux(v@.subrange(0, k as int), c).len(),
            forall|i: int| 0 <= i < faits@.len() ==> (#[trigger] faits@[i])@ == morceaux(v@.subrange(0, k as int), c)[i],
            cur@ == morceaux(v@.subrange(0, k as int), c).last(),
        decreases v.len() - k,
    {
        proof {
            let s = v@.subrange(0, k as int + 1);
            assert(s.drop_last() =~= v@.subrange(0, k as int));
            lemme_morceaux_non_vide(v@.subrange(0, k as int), c);
        }
        if v[k] == c {
            let fini = cur;
            faits.push(fini);
            cur = Vec::new();
        } else {
            cur.push(v[k]);
        }
        k = k + 1;
    }
    assert(v@.subrange(0, k as int) =~= v@);
    faits.push(cur);
    faits
}

/// The template a generated name declares, `_verso` included, or `None`
/// when the name does not speak the generated grammar.
pub fn parse_genere(nom: &str) -> (r: Option<Genere>)
    requires
        !nom_coupe(nom@),
    ensures
        r == genere_de(nom@),
{
    let v = caracteres(nom);
    let n = v.len();
    let suffixe = caracteres("_verso");
    proof {
        reveal_strlit("_verso");
        assert(suffixe@ =~= seq!['_', 'v', 'e', 'r', 's', 'o']);
    }
    let verso = n >= 6 && egales(tranche(v.as_slice(), n - 6, n).as_slice(), suffixe.as_slice());
    let corps = if verso { tranche(v.as_slice(), 0, n - 6) } else { tranche(v.as_slice(), 0, n) };
    proof {
        if !verso {
            assert(corps@ =~= v@);
        }
        assert(sans_verso(nom@) == (corps@, verso));
    }
    let p = couper(&corps, '_');
    proof {
        lemme_morceaux_non_vide(corps@, '_');
    }
    if !(p[0].len() == 1 && p[0][0] == 'g') {
        assert(p@[0]@ != seq!['g']);
        return None;
    }
    assert(p@[0]@ =~= seq!['g']);
    if p.len() < 3 || p.len() > 4 {
        return None;
    }
    let g = match page_de(&p[1]) {
        Some(g) => g,
        None => return None,
    };
    let d = match page_de(&p[2]) {
        Some(d) => d,
        None => return None,
    };
    let bande: u64 = if p.len() == 3 {
        0
    } else {
        let b = &p[3];
        if b.len() > 0 && b[0] == 'b' {
            match entier(tranche(b.as_slice(), 1, b.len()).as_slice()) {
                Some(x) => {
                    proof {
                        assert(b@.subrange(1, b@.len() as int) =~= b@.drop_first());
                    }
                    if x <= 0xFFFF_FFFF { x } else { return None; }
                },
                None => {
                    proof {
                        assert(b@.subrange(1, b@.len() as int) =~= b@.drop_first());
                    }
                    return None;
                },
            }
        } else {
            return None;
        }
    };
    proof {
        lemme_page_lue_bornee(p@[1]@);
        lemme_page_lue_bornee(p@[2]@);
    }
    let capacite = capacite_page(&g) + capacite_page(&d);
    if capacite == 0 {
        return None;
    }
    if verso {
        if g == d {
            return None;
        }
        Some(Genere { capacite, gauche: d, droite: g, ordre: Ordre::ParPage, bande_mm: bande as u32 })
    } else {
        Some(Genere { capacite, gauche: g, droite: d, ordre: Ordre::ParPage, bande_mm: bande as u32 })
    }
}

// --- The name is the whole declaration ---------------------------------------------

/// `c` does not occur in `s`.
pub open spec fn sans(s: Seq<char>, c: char) -> bool {
    forall|k: int| 0 <= k < s.len() ==> s[k] != c
}

proof fn lemme_morceaux_ajout(a: Seq<char>, b: Seq<char>, c: char)
    requires
        sans(b, c),
    ensures
        morceaux(a + b, c) == morceaux(a, c).update(morceaux(a, c).len() - 1, morceaux(a, c).last() + b),
    decreases b.len(),
{
    lemme_morceaux_non_vide(a, c);
    if b.len() == 0 {
        assert(a + b =~= a);
        assert(morceaux(a, c).last() + b =~= morceaux(a, c).last());
        assert(morceaux(a, c).update(morceaux(a, c).len() - 1, morceaux(a, c).last()) =~= morceaux(a, c));
    } else {
        let b2 = b.drop_last();
        lemme_morceaux_ajout(a, b2, c);
        assert((a + b).drop_last() =~= a + b2);
        assert((a + b).last() == b[b.len() - 1]);
        lemme_morceaux_non_vide(a + b2, c);
        let m = morceaux(a, c);
        let r = morceaux(a + b2, c);
        assert(r.len() == m.len());
        assert(r.last() == m.last() + b2);
        assert((m.last() + b2).push(b[b.len() - 1]) =~= m.last() + b);
        assert(morceaux(a + b, c) =~= m.update(m.len() - 1, m.last() + b));
    }
}

proof fn lemme_morceaux_separe(a: Seq<char>, c: char)
    ensures
        morceaux(a + seq![c], c) == morceaux(a, c).push(Seq::empty()),
{
    assert((a + seq![c]).drop_last() =~= a);
}

/// Adding one more piece after a separator.
proof fn lemme_morceaux_piece(a: Seq<char>, b: Seq<char>, c: char)
    requires
        sans(b, c),
    ensures
        morceaux(a + seq![c] + b, c) == morceaux(a, c).push(b),
{
    lemme_morceaux_separe(a, c);
    lemme_morceaux_ajout(a + seq![c], b, c);
    assert(Seq::<char>::empty() + b =~= b);
    assert(morceaux(a, c).push(Seq::empty()).update(morceaux(a, c).len() as int, b) =~= morceaux(a, c).push(b));
}

proof fn lemme_decimal_chiffres(n: nat)
    ensures
        forall|k: int| 0 <= k < decimal(n).len() ==> crate::chaines::est_chiffre(#[trigger] decimal(n)[k]),
        decimal(n).len() >= 1,
        valeur(decimal(n)) == n,
{
    crate::chaines::lemme_decimal(n);
}

proof fn lemme_premier_apres(a: Seq<char>, b: Seq<char>, c: char)
    requires
        sans(a, c),
    ensures
        premier(a + seq![c] + b, c) == Some(a.len() as int),
    decreases a.len(),
{
    if a.len() > 0 {
        lemme_premier_apres(a.drop_first(), b, c);
        assert((a + seq![c] + b).drop_first() =~= a.drop_first() + seq![c] + b);
    } else {
        assert((a + seq![c] + b)[0] == c);
    }
}

proof fn lemme_code_lu(p: Page)
    requires
        page_bornee(p),
    ensures
        page_lue(code_de(p)) == Some(p),
        sans(code_de(p), '_'),
        code_de(p).len() >= 1,
        code_de(p).last() != 'o',
{
    match p {
        Page::Grille { cols, rangs, ratio } => {
            let d1 = decimal(cols as nat);
            let d2 = decimal(rangs as nat);
            lemme_decimal_chiffres(cols as nat);
            lemme_decimal_chiffres(rangs as nat);
            let code = code_de(p);
            assert(code == d1 + seq!['x'] + d2 + seq![lettre(ratio)]);
            assert(code.len() >= 4);
            assert(code.last() == lettre(ratio));
            let dims = code.drop_last();
            assert(dims =~= d1 + seq!['x'] + d2);
            assert(sans(d1, 'x')) by {
                assert forall|k: int| 0 <= k < d1.len() implies d1[k] != 'x' by {
                    assert(crate::chaines::est_chiffre(d1[k]));
                }
            }
            lemme_premier_apres(d1, d2, 'x');
            assert(dims.subrange(0, d1.len() as int) =~= d1);
            assert(dims.subrange(d1.len() as int + 1, dims.len() as int) =~= d2);
            assert(d1[0] != '+') by {
                assert(crate::chaines::est_chiffre(d1[0]));
            }
            assert(d2[0] != '+') by {
                assert(crate::chaines::est_chiffre(d2[0]));
            }
            assert(que_des_chiffres(d1));
            assert(que_des_chiffres(d2));
            assert forall|k: int| 0 <= k < code.len() implies code[k] != '_' by {
                if k < d1.len() {
                    assert(code[k] == d1[k]);
                    assert(crate::chaines::est_chiffre(d1[k]));
                } else if k == d1.len() {
                } else if k < d1.len() + 1 + d2.len() {
                    assert(code[k] == d2[k - d1.len() - 1]);
                    assert(crate::chaines::est_chiffre(d2[k - d1.len() - 1]));
                }
            }
        },
        _ => {},
    }
}

/// The pieces of a generated name.
pub open spec fn pieces_de(gauche: Page, droite: Page, bande_mm: u32) -> Seq<Seq<char>> {
    let base = seq![seq!['g'], code_de(gauche), code_de(droite)];
    if bande_mm > 0 { base.push(seq!['b'] + decimal(bande_mm as nat)) } else { base }
}

proof fn lemme_pieces_du_nom(gauche: Page, droite: Page, bande_mm: u32)
    requires
        page_bornee(gauche),
        page_bornee(droite),
    ensures
        morceaux(nom_de(gauche, droite, bande_mm), '_') == pieces_de(gauche, droite, bande_mm),
        nom_de(gauche, droite, bande_mm).len() >= 1,
        nom_de(gauche, droite, bande_mm).last() != 'o',
{
    lemme_code_lu(gauche);
    lemme_code_lu(droite);
    let c1 = code_de(gauche);
    let c2 = code_de(droite);
    assert(morceaux(Seq::<char>::empty(), '_') == seq![Seq::<char>::empty()]);
    assert(seq!['g'].drop_last() =~= Seq::<char>::empty());
    assert(Seq::<char>::empty().push('g') =~= seq!['g']);
    assert(morceaux(seq!['g'], '_') =~= seq![seq!['g']]);
    assert(sans(seq!['g'], '_'));
    let base = seq!['g', '_'] + c1 + seq!['_'] + c2;
    assert(seq!['g', '_'] + c1 =~= seq!['g'] + seq!['_'] + c1);
    lemme_morceaux_piece(seq!['g'], c1, '_');
    lemme_morceaux_piece(seq!['g', '_'] + c1, c2, '_');
    assert(morceaux(base, '_') =~= seq![seq!['g'], c1, c2]);
    if bande_mm > 0 {
        let d = decimal(bande_mm as nat);
        lemme_decimal_chiffres(bande_mm as nat);
        let bd = seq!['b'] + d;
        assert(sans(bd, '_')) by {
            assert forall|k: int| 0 <= k < bd.len() implies bd[k] != '_' by {
                if k > 0 {
                    assert(bd[k] == d[k - 1]);
                    assert(crate::chaines::est_chiffre(d[k - 1]));
                }
            }
        }
        assert(nom_de(gauche, droite, bande_mm) =~= base + seq!['_'] + bd);
        lemme_morceaux_piece(base, bd, '_');
        assert(nom_de(gauche, droite, bande_mm).last() == d[d.len() - 1]);
        assert(crate::chaines::est_chiffre(d[d.len() - 1]));
    } else {
        assert(nom_de(gauche, droite, bande_mm).last() == c2.last());
    }
}

proof fn lemme_bande_lue(bande_mm: u32)
    requires
        bande_mm > 0,
    ensures
        ({
            let bd = seq!['b'] + decimal(bande_mm as nat);
            bd.len() > 0 && bd[0] == 'b' && entier_lu(bd.drop_first()) == Some(bande_mm as nat)
        }),
{
    let d = decimal(bande_mm as nat);
    lemme_decimal_chiffres(bande_mm as nat);
    let bd = seq!['b'] + d;
    assert(bd.drop_first() =~= d);
    assert(d[0] != '+') by {
        assert(crate::chaines::est_chiffre(d[0]));
    }
    assert(que_des_chiffres(d));
}

/// The name is the whole declaration: a generated name reads back as the
/// pages and the band it was made of, and its verso as their mirror.
pub proof fn loi_le_nom_encode_les_parametres(gauche: Page, droite: Page, bande_mm: u32)
    requires
        page_bornee(gauche),
        page_bornee(droite),
        capacite_de(gauche) + capacite_de(droite) > 0,
    ensures
        genere_de(nom_de(gauche, droite, bande_mm)) == Some(Genere {
            capacite: (capacite_de(gauche) + capacite_de(droite)) as usize,
            gauche,
            droite,
            ordre: Ordre::ParPage,
            bande_mm,
        }),
        gauche != droite ==> genere_de(nom_de(gauche, droite, bande_mm) + seq!['_', 'v', 'e', 'r', 's', 'o']) == Some(Genere {
            capacite: (capacite_de(gauche) + capacite_de(droite)) as usize,
            gauche: droite,
            droite: gauche,
            ordre: Ordre::ParPage,
            bande_mm,
        }),
{
    lemme_code_lu(gauche);
    lemme_code_lu(droite);
    lemme_pieces_du_nom(gauche, droite, bande_mm);
    if bande_mm > 0 {
        lemme_bande_lue(bande_mm);
    }
    let nom = nom_de(gauche, droite, bande_mm);
    assert(sans_verso(nom) == (nom, false)) by {
        if nom.len() >= 6 && nom.subrange(nom.len() - 6, nom.len() as int) == seq!['_', 'v', 'e', 'r', 's', 'o'] {
            assert(nom.subrange(nom.len() - 6, nom.len() as int)[5] == nom.last());
        }
    }
    let verso = nom + seq!['_', 'v', 'e', 'r', 's', 'o'];
    assert(verso.subrange(verso.len() - 6, verso.len() as int) =~= seq!['_', 'v', 'e', 'r', 's', 'o']);
    assert(verso.subrange(0, verso.len() - 6) =~= nom);
}

// --- The catalogue -----------------------------------------------------------------

/// One template: a name, and enough parameters to draw it anywhere.
#[derive(Debug, Clone)]
pub struct Spec {
    pub nom: String,
    pub capacite: usize,
    pub gauche: Page,
    pub droite: Page,
    pub ordre: Ordre,
    /// Signed caption height, in whole millimetres. Positive reserves a
    /// white band under the frame; negative declares an overlay printed over
    /// the photo; zero leaves the caption to the hunt for a free margin spot.
    pub legende: i64,
}

/// A template as plain values: name, capacity, pages, slot order, caption.
pub open spec fn vue_spec(s: Spec) -> (Seq<char>, usize, Page, Page, Ordre, i64) {
    (s.nom@, s.capacite, s.gauche, s.droite, s.ordre, s.legende)
}

pub open spec fn vues_specs(v: Seq<Spec>) -> Seq<(Seq<char>, usize, Page, Page, Ordre, i64)> {
    Seq::new(v.len(), |i: int| vue_spec(v[i]))
}

impl Spec {
    /// A layout whose two pages read the same is its own mirror: flipping it
    /// changes nothing, so no verso variant exists for it.
    pub fn symetrique(&self) -> (b: bool)
        ensures
            b == (self.gauche == self.droite),
    {
        self.gauche == self.droite
    }
}

/// One cell on the page, fitted to `r`.
pub open spec fn une(r: Ratio) -> Page {
    Page::Grille { cols: 1, rangs: 1, ratio: r }
}

/// A historical family: no caption band, no overlay.
pub open spec fn fam(nom: Seq<char>, capacite: usize, gauche: Page, droite: Page, ordre: Ordre)
    -> (Seq<char>, usize, Page, Page, Ordre, i64)
{
    (nom, capacite, gauche, droite, ordre, 0i64)
}

/// The families, recto side (the lead on the right page), in the order the
/// picker and the dump keep.
pub open spec fn familles_de() -> Seq<(Seq<char>, usize, Page, Page, Ordre, i64)> {
    seq![
        fam("full1"@, 1, Page::Vide, Page::Pleine, Ordre::ParPage),
        fam("solo"@, 1, Page::Vide, une(Ratio::Portrait), Ordre::ParPage),
        fam("solo_paysage"@, 1, Page::Vide, une(Ratio::Paysage), Ordre::ParPage),
        fam("solo_pano"@, 1, Page::Vide, une(Ratio::Pano), Ordre::ParPage),
        fam("solo_etroit"@, 1, Page::Vide, une(Ratio::Etroit), Ordre::ParPage),
        fam("solo_carre"@, 1, Page::Vide, une(Ratio::Carre), Ordre::ParPage),
        fam("duo"@, 2, une(Ratio::Libre), une(Ratio::Libre), Ordre::ParPage),
        fam("duo_portrait"@, 2, une(Ratio::Portrait), une(Ratio::Portrait), Ordre::ParPage),
        fam("duo_paysage"@, 2, une(Ratio::Paysage), une(Ratio::Paysage), Ordre::ParPage),
        fam("duo_etroit"@, 2, une(Ratio::Etroit), une(Ratio::Etroit), Ordre::ParPage),
        fam("duo_pano"@, 2, une(Ratio::Pano), une(Ratio::Pano), Ordre::ParPage),
        fam("trio"@, 3, Page::Grille { cols: 1, rangs: 2, ratio: Ratio::Paysage }, Page::Pleine, Ordre::ParPage),
        fam("trio_portrait"@, 3, Page::Grille { cols: 2, rangs: 1, ratio: Ratio::Portrait }, Page::Pleine, Ordre::ParPage),
        fam("quad"@, 4, Page::Grille { cols: 1, rangs: 2, ratio: Ratio::Paysage },
            Page::Grille { cols: 1, rangs: 2, ratio: Ratio::Paysage }, Ordre::ParRangee),
        fam("quad_portrait"@, 4, Page::Grille { cols: 2, rangs: 1, ratio: Ratio::Portrait },
            Page::Grille { cols: 2, rangs: 1, ratio: Ratio::Portrait }, Ordre::ParPage),
        fam("quad_etroit"@, 4, Page::Grille { cols: 2, rangs: 1, ratio: Ratio::Etroit },
            Page::Grille { cols: 2, rangs: 1, ratio: Ratio::Etroit }, Ordre::ParPage),
        fam("quad_pano"@, 4, Page::Grille { cols: 1, rangs: 2, ratio: Ratio::Pano },
            Page::Grille { cols: 1, rangs: 2, ratio: Ratio::Pano }, Ordre::ParRangee),
        fam("six"@, 6, Page::Grille { cols: 2, rangs: 2, ratio: Ratio::Libre },
            Page::Grille { cols: 1, rangs: 2, ratio: Ratio::Paysage }, Ordre::ParPage),
        fam("octo"@, 8, Page::Grille { cols: 2, rangs: 2, ratio: Ratio::Libre },
            Page::Grille { cols: 2, rangs: 2, ratio: Ratio::Libre }, Ordre::ParPage),
        fam("vide"@, 0, Page::Vide, Page::Vide, Ordre::ParPage),
        fam("texte"@, 0, Page::Vide, Page::Vide, Ordre::ParPage),
        fam("colophon"@, 0, Page::Vide, Page::Vide, Ordre::ParPage),
        fam("garde"@, 0, Page::Vide, Page::Vide, Ordre::ParPage),
    ]
}

fn historique(nom: &str, capacite: usize, gauche: Page, droite: Page, ordre: Ordre) -> (s: Spec)
    ensures
        vue_spec(s) == fam(nom@, capacite, gauche, droite, ordre),
{
    Spec { nom: nom.to_owned(), capacite, gauche, droite, ordre, legende: 0 }
}

/// The families the generator emits, recto side. Photo-less spreads the
/// editor inserts, and the two book ends, have no capacity: that keeps them
/// out of the picker and of every count-driven rule.
pub fn familles() -> (r: Vec<Spec>)
    ensures
        vues_specs(r@) == familles_de(),
{
    let une_case = |ratio: Ratio| -> (p: Page)
        ensures
            p == une(ratio),
    {
        Page::Grille { cols: 1, rangs: 1, ratio }
    };
    let mut v: Vec<Spec> = Vec::new();
    v.push(historique("full1", 1, Page::Vide, Page::Pleine, Ordre::ParPage));
    v.push(historique("solo", 1, Page::Vide, une_case(Ratio::Portrait), Ordre::ParPage));
    v.push(historique("solo_paysage", 1, Page::Vide, une_case(Ratio::Paysage), Ordre::ParPage));
    v.push(historique("solo_pano", 1, Page::Vide, une_case(Ratio::Pano), Ordre::ParPage));
    v.push(historique("solo_etroit", 1, Page::Vide, une_case(Ratio::Etroit), Ordre::ParPage));
    v.push(historique("solo_carre", 1, Page::Vide, une_case(Ratio::Carre), Ordre::ParPage));
    v.push(historique("duo", 2, une_case(Ratio::Libre), une_case(Ratio::Libre), Ordre::ParPage));
    v.push(historique("duo_portrait", 2, une_case(Ratio::Portrait), une_case(Ratio::Portrait), Ordre::ParPage));
    v.push(historique("duo_paysage", 2, une_case(Ratio::Paysage), une_case(Ratio::Paysage), Ordre::ParPage));
    v.push(historique("duo_etroit", 2, une_case(Ratio::Etroit), une_case(Ratio::Etroit), Ordre::ParPage));
    v.push(historique("duo_pano", 2, une_case(Ratio::Pano), une_case(Ratio::Pano), Ordre::ParPage));
    v.push(historique("trio", 3, Page::Grille { cols: 1, rangs: 2, ratio: Ratio::Paysage }, Page::Pleine, Ordre::ParPage));
    v.push(historique("trio_portrait", 3, Page::Grille { cols: 2, rangs: 1, ratio: Ratio::Portrait }, Page::Pleine, Ordre::ParPage));
    v.push(historique("quad", 4, Page::Grille { cols: 1, rangs: 2, ratio: Ratio::Paysage },
        Page::Grille { cols: 1, rangs: 2, ratio: Ratio::Paysage }, Ordre::ParRangee));
    v.push(historique("quad_portrait", 4, Page::Grille { cols: 2, rangs: 1, ratio: Ratio::Portrait },
        Page::Grille { cols: 2, rangs: 1, ratio: Ratio::Portrait }, Ordre::ParPage));
    v.push(historique("quad_etroit", 4, Page::Grille { cols: 2, rangs: 1, ratio: Ratio::Etroit },
        Page::Grille { cols: 2, rangs: 1, ratio: Ratio::Etroit }, Ordre::ParPage));
    v.push(historique("quad_pano", 4, Page::Grille { cols: 1, rangs: 2, ratio: Ratio::Pano },
        Page::Grille { cols: 1, rangs: 2, ratio: Ratio::Pano }, Ordre::ParRangee));
    v.push(historique("six", 6, Page::Grille { cols: 2, rangs: 2, ratio: Ratio::Libre },
        Page::Grille { cols: 1, rangs: 2, ratio: Ratio::Paysage }, Ordre::ParPage));
    v.push(historique("octo", 8, Page::Grille { cols: 2, rangs: 2, ratio: Ratio::Libre },
        Page::Grille { cols: 2, rangs: 2, ratio: Ratio::Libre }, Ordre::ParPage));
    v.push(historique("vide", 0, Page::Vide, Page::Vide, Ordre::ParPage));
    v.push(historique("texte", 0, Page::Vide, Page::Vide, Ordre::ParPage));
    v.push(historique("colophon", 0, Page::Vide, Page::Vide, Ordre::ParPage));
    v.push(historique("garde", 0, Page::Vide, Page::Vide, Ordre::ParPage));
    assert(vues_specs(v@) =~= familles_de());
    v
}

/// The mirror of a template: its pages swapped, `_verso` after its name.
pub open spec fn verso_de(f: (Seq<char>, usize, Page, Page, Ordre, i64)) -> (Seq<char>, usize, Page, Page, Ordre, i64) {
    (f.0 + "_verso"@, f.1, f.3, f.2, f.4, f.5)
}

/// A family, then its mirror when it has photos and its pages differ.
pub open spec fn avec_verso(f: (Seq<char>, usize, Page, Page, Ordre, i64)) -> Seq<(Seq<char>, usize, Page, Page, Ordre, i64)> {
    if f.2 != f.3 && f.1 > 0 { seq![f, verso_de(f)] } else { seq![f] }
}

/// Every family of `fs`, each followed by its derived verso.
pub open spec fn catalogue_de(fs: Seq<(Seq<char>, usize, Page, Page, Ordre, i64)>) -> Seq<(Seq<char>, usize, Page, Page, Ordre, i64)>
    decreases fs.len(),
{
    if fs.len() == 0 {
        Seq::empty()
    } else {
        catalogue_de(fs.drop_last()) + avec_verso(fs.last())
    }
}

fn copie_spec(s: &Spec) -> (r: Spec)
    ensures
        vue_spec(r) == vue_spec(*s),
{
    Spec { nom: s.nom.clone(), capacite: s.capacite, gauche: s.gauche, droite: s.droite, ordre: s.ordre, legende: s.legende }
}

fn verso(s: &Spec) -> (r: Spec)
    ensures
        vue_spec(r) == verso_de(vue_spec(*s)),
{
    let nom = concat(caracteres(s.nom.as_str()).as_slice(), caracteres("_verso").as_slice());
    Spec { nom: chaine(nom.as_slice()), capacite: s.capacite, gauche: s.droite, droite: s.gauche, ordre: s.ordre, legende: s.legende }
}

/// The whole historical catalogue: every family, its derived verso right
/// behind it when the layout is asymmetric. The mirror is derived, never
/// written.
pub fn catalogue() -> (r: Vec<Spec>)
    ensures
        vues_specs(r@) == catalogue_de(familles_de()),
{
    let fs = familles();
    let ghost f = vues_specs(fs@);
    let mut out: Vec<Spec> = Vec::new();
    let mut k: usize = 0;
    assert(f.take(0) =~= Seq::<(Seq<char>, usize, Page, Page, Ordre, i64)>::empty());
    assert(vues_specs(out@) =~= Seq::<(Seq<char>, usize, Page, Page, Ordre, i64)>::empty());
    while k < fs.len()
        invariant
            f == vues_specs(fs@),
            k <= fs@.len(),
            vues_specs(out@) == catalogue_de(f.take(k as int)),
        decreases fs.len() - k,
    {
        let s = &fs[k];
        proof {
            assert(f.take(k as int + 1).drop_last() =~= f.take(k as int));
            assert(f.take(k as int + 1).last() == vue_spec(*s));
        }
        let ghost vo = vues_specs(out@);
        out.push(copie_spec(s));
        assert(vues_specs(out@) =~= vo.push(vue_spec(*s)));
        if !s.symetrique() && s.capacite > 0 {
            let ghost vo2 = vues_specs(out@);
            out.push(verso(s));
            assert(vues_specs(out@) =~= vo2.push(verso_de(vue_spec(*s))));
            assert(vues_specs(out@) =~= vo + avec_verso(vue_spec(*s)));
        } else {
            assert(vues_specs(out@) =~= vo + avec_verso(vue_spec(*s)));
        }
        k = k + 1;
    }
    assert(f.take(k as int) =~= f);
    out
}

// --- The parametric generator -------------------------------------------------------

/// Canonical caption band of the generated templates, in millimetres: one
/// height, not a continuum.
pub const BANDE_GENEREE: u32 = 8;

/// The capacities the composer's chunker produces: a generated template of
/// another capacity would never be emitted on a spread.
pub open spec fn capacite_produite(c: nat) -> bool {
    c == 1 || c == 2 || c == 3 || c == 4 || c == 6 || c == 8
}

/// The cell shapes in the order the generator walks them.
pub open spec fn ratio_au_rang(k: int) -> Ratio {
    if k == 0 { Ratio::Etroit }
    else if k == 1 { Ratio::Portrait }
    else if k == 2 { Ratio::Carre }
    else if k == 3 { Ratio::Paysage }
    else if k == 4 { Ratio::Pano }
    else { Ratio::Libre }
}

/// The `k`-th page state: empty, full, then every grid of one to four
/// columns and rows, columns outermost, in every cell shape.
pub open spec fn etat(k: int) -> Page {
    if k == 0 {
        Page::Vide
    } else if k == 1 {
        Page::Pleine
    } else {
        Page::Grille { cols: ((k - 2) / 24 + 1) as usize, rangs: (((k - 2) / 6) % 4 + 1) as usize, ratio: ratio_au_rang((k - 2) % 6) }
    }
}

/// How many page states the generator combines.
pub const NB_ETATS: usize = 98;

fn ratio_au_rang_de(k: usize) -> (r: Ratio)
    ensures
        r == ratio_au_rang(k as int),
{
    if k == 0 { Ratio::Etroit }
    else if k == 1 { Ratio::Portrait }
    else if k == 2 { Ratio::Carre }
    else if k == 3 { Ratio::Paysage }
    else if k == 4 { Ratio::Pano }
    else { Ratio::Libre }
}

/// The page states the generator combines, in a fixed order: the order is
/// the canonical form, a pair is only emitted with its earlier state on the
/// left.
pub fn etats_page() -> (v: Vec<Page>)
    ensures
        v@ == Seq::new(NB_ETATS as nat, |k: int| etat(k)),
{
    let mut v: Vec<Page> = Vec::new();
    v.push(Page::Vide);
    v.push(Page::Pleine);
    let mut k: usize = 2;
    while k < NB_ETATS
        invariant
            2 <= k <= NB_ETATS,
            v@ == Seq::new(k as nat, |q: int| etat(q)),
        decreases NB_ETATS - k,
    {
        let q = k - 2;
        v.push(Page::Grille { cols: q / 24 + 1, rangs: (q / 6) % 4 + 1, ratio: ratio_au_rang_de(q % 6) });
        k = k + 1;
        assert(v@ =~= Seq::new(k as nat, |q: int| etat(q)));
    }
    v
}

/// `(g, d)` are the pages of a historical family, either way round.
pub open spec fn jumeau_historique(g: Page, d: Page) -> bool {
    exists|k: int| 0 <= k < familles_de().len()
        && ((#[trigger] familles_de()[k]).2 == g && familles_de()[k].3 == d
            || familles_de()[k].2 == d && familles_de()[k].3 == g)
}

/// The candidate of states `i` and `j` with caption band `b`, when the
/// generator emits it: its capacity is one the chunker produces, and
/// without a band it is no parameter twin of a family already offered.
pub open spec fn candidat(i: int, j: int, b: u32) -> Seq<(Seq<char>, usize, Page, Page, Ordre, i64)> {
    let g = etat(i);
    let d = etat(j);
    let cap = capacite_de(g) + capacite_de(d);
    if capacite_produite(cap) && !(b == 0 && jumeau_historique(g, d)) {
        seq![(nom_de(g, d, b), cap as usize, g, d, Ordre::ParPage, b as i64)]
    } else {
        Seq::empty()
    }
}

/// The candidates of state `i` on the left and a state from `i` up to
/// before `j` on the right, bandless first.
pub open spec fn combos_de(i: int, j: int) -> Seq<(Seq<char>, usize, Page, Page, Ordre, i64)>
    decreases j - i,
{
    if j <= i {
        Seq::empty()
    } else {
        combos_de(i, j - 1) + candidat(i, j - 1, 0) + candidat(i, j - 1, BANDE_GENEREE)
    }
}

/// The candidates whose left state comes before `i`.
pub open spec fn combos_jusqua(i: int) -> Seq<(Seq<char>, usize, Page, Page, Ordre, i64)>
    decreases i,
{
    if i <= 0 {
        Seq::empty()
    } else {
        combos_jusqua(i - 1) + combos_de(i - 1, NB_ETATS as int)
    }
}

/// The capacities the composer's chunker produces.
pub const CAPACITES: [usize; 6] = [1, 2, 3, 4, 6, 8];

fn capacite_produite_de(c: usize) -> (b: bool)
    ensures
        b == capacite_produite(c as nat),
{
    let t = CAPACITES;
    assert(t@ =~= seq![1usize, 2, 3, 4, 6, 8]);
    let mut k: usize = 0;
    while k < 6
        invariant
            t@ == seq![1usize, 2, 3, 4, 6, 8],
            k <= 6,
            forall|q: int| 0 <= q < k ==> t@[q] != c,
        decreases 6 - k,
    {
        if t[k] == c {
            return true;
        }
        k = k + 1;
    }
    false
}

fn jumeau_de(fs: &Vec<Spec>, g: Page, d: Page) -> (b: bool)
    requires
        vues_specs(fs@) == familles_de(),
    ensures
        b == jumeau_historique(g, d),
{
    let mut k: usize = 0;
    while k < fs.len()
        invariant
            vues_specs(fs@) == familles_de(),
            k <= fs@.len(),
            forall|q: int| 0 <= q < k ==> !((#[trigger] familles_de()[q]).2 == g && familles_de()[q].3 == d
                || familles_de()[q].2 == d && familles_de()[q].3 == g),
        decreases fs.len() - k,
    {
        assert(familles_de()[k as int] == vue_spec(fs@[k as int]));
        if (fs[k].gauche == g && fs[k].droite == d) || (fs[k].gauche == d && fs[k].droite == g) {
            return true;
        }
        k = k + 1;
    }
    false
}

fn candidat_de(g: Page, d: Page, cap: usize, b: u32) -> (s: Spec)
    requires
        page_bornee(g),
        page_bornee(d),
    ensures
        vue_spec(s) == (nom_de(g, d, b), cap, g, d, Ordre::ParPage, b as i64),
{
    Spec { nom: nom_genere(&g, &d, b), capacite: cap, gauche: g, droite: d, ordre: Ordre::ParPage, legende: b as i64 }
}

proof fn lemme_etat(k: int)
    requires
        0 <= k < NB_ETATS,
    ensures
        page_bornee(etat(k)),
        capacite_de(etat(k)) <= 16,
{
    if k >= 2 {
        let c = (k - 2) / 24 + 1;
        let r = ((k - 2) / 6) % 4 + 1;
        assert(1 <= c <= 4);
        assert(1 <= r <= 4);
        assert(c * r <= 16) by (nonlinear_arith)
            requires
                1 <= c <= 4,
                1 <= r <= 4;
    }
}

/// Every candidate the bench measures, recto side, in a stable order:
/// every pair of page states with the earlier one on the left, its
/// capacity one the chunker produces, without a caption band and then with
/// the canonical one; a bandless pair that repeats a historical family,
/// either way round, is left out, since it is already offered.
pub fn combinaisons() -> (r: Vec<Spec>)
    ensures
        vues_specs(r@) == combos_jusqua(NB_ETATS as int),
{
    let etats = etats_page();
    let fs = familles();
    let mut out: Vec<Spec> = Vec::new();
    let mut i: usize = 0;
    assert(vues_specs(out@) =~= Seq::<(Seq<char>, usize, Page, Page, Ordre, i64)>::empty());
    while i < NB_ETATS
        invariant
            etats@ == Seq::new(NB_ETATS as nat, |k: int| etat(k)),
            vues_specs(fs@) == familles_de(),
            i <= NB_ETATS,
            vues_specs(out@) == combos_jusqua(i as int),
        decreases NB_ETATS - i,
    {
        let ghost base = combos_jusqua(i as int);
        let mut j: usize = i;
        assert(base + combos_de(i as int, i as int) =~= base);
        while j < NB_ETATS
            invariant
                etats@ == Seq::new(NB_ETATS as nat, |k: int| etat(k)),
                vues_specs(fs@) == familles_de(),
                i <= j <= NB_ETATS,
                i < NB_ETATS,
                base == combos_jusqua(i as int),
                vues_specs(out@) == base + combos_de(i as int, j as int),
            decreases NB_ETATS - j,
        {
            let g = etats[i];
            let d = etats[j];
            proof {
                lemme_etat(i as int);
                lemme_etat(j as int);
            }
            let cap = capacite_page(&g) + capacite_page(&d);
            let ghost avant = vues_specs(out@);
            if capacite_produite_de(cap) {
                if !jumeau_de(&fs, g, d) {
                    let ghost vo = vues_specs(out@);
                    out.push(candidat_de(g, d, cap, 0));
                    assert(vues_specs(out@) =~= vo + candidat(i as int, j as int, 0));
                } else {
                    assert(candidat(i as int, j as int, 0) =~= Seq::<(Seq<char>, usize, Page, Page, Ordre, i64)>::empty());
                    assert(vues_specs(out@) =~= avant + candidat(i as int, j as int, 0));
                }
                let ghost vo = vues_specs(out@);
                out.push(candidat_de(g, d, cap, BANDE_GENEREE));
                assert(vues_specs(out@) =~= vo + candidat(i as int, j as int, BANDE_GENEREE));
            } else {
                assert(candidat(i as int, j as int, 0) =~= Seq::<(Seq<char>, usize, Page, Page, Ordre, i64)>::empty());
                assert(candidat(i as int, j as int, BANDE_GENEREE) =~= Seq::<(Seq<char>, usize, Page, Page, Ordre, i64)>::empty());
            }
            j = j + 1;
            assert(vues_specs(out@) =~= base + combos_de(i as int, j as int));
        }
        i = i + 1;
        assert(vues_specs(out@) =~= combos_jusqua(i as int));
    }
    out
}

/// What every enumerated candidate is: a capacity the chunker produces,
/// slots page by page, no band or the canonical one, and, without a band,
/// no parameter twin of a historical family.
pub open spec fn candidat_borne(c: (Seq<char>, usize, Page, Page, Ordre, i64)) -> bool {
    &&& capacite_produite(c.1 as nat)
    &&& c.4 == Ordre::ParPage
    &&& c.5 == 0 || c.5 == BANDE_GENEREE as i64
    &&& c.5 == 0 ==> !jumeau_historique(c.2, c.3)
}

proof fn lemme_candidat(i: int, j: int, b: u32)
    requires
        b == 0 || b == BANDE_GENEREE,
    ensures
        forall|k: int| 0 <= k < candidat(i, j, b).len() ==> candidat_borne(#[trigger] candidat(i, j, b)[k]),
{
    let g = etat(i);
    let d = etat(j);
    let cap = capacite_de(g) + capacite_de(d);
    if capacite_produite(cap) && !(b == 0 && jumeau_historique(g, d)) {
        assert(candidat(i, j, b)[0].1 as nat == cap);
    }
}

proof fn lemme_combos_de(i: int, j: int)
    ensures
        forall|k: int| 0 <= k < combos_de(i, j).len() ==> candidat_borne(#[trigger] combos_de(i, j)[k]),
    decreases j - i,
{
    if j > i {
        lemme_combos_de(i, j - 1);
        lemme_candidat(i, j - 1, 0);
        lemme_candidat(i, j - 1, BANDE_GENEREE);
        let a = combos_de(i, j - 1);
        let b = candidat(i, j - 1, 0);
        let c = candidat(i, j - 1, BANDE_GENEREE);
        assert forall|k: int| 0 <= k < combos_de(i, j).len() implies candidat_borne(#[trigger] combos_de(i, j)[k]) by {
            if k < a.len() {
                assert(combos_de(i, j)[k] == a[k]);
            } else if k < a.len() + b.len() {
                assert(combos_de(i, j)[k] == b[k - a.len()]);
            } else {
                assert(combos_de(i, j)[k] == c[k - a.len() - b.len()]);
            }
        }
    }
}

proof fn lemme_combos_jusqua(i: int)
    ensures
        forall|k: int| 0 <= k < combos_jusqua(i).len() ==> candidat_borne(#[trigger] combos_jusqua(i)[k]),
    decreases i,
{
    if i > 0 {
        lemme_combos_jusqua(i - 1);
        lemme_combos_de(i - 1, NB_ETATS as int);
        let a = combos_jusqua(i - 1);
        let b = combos_de(i - 1, NB_ETATS as int);
        assert forall|k: int| 0 <= k < combos_jusqua(i).len() implies candidat_borne(#[trigger] combos_jusqua(i)[k]) by {
            if k < a.len() {
                assert(combos_jusqua(i)[k] == a[k]);
            } else {
                assert(combos_jusqua(i)[k] == b[k - a.len()]);
            }
        }
    }
}

/// The enumeration stays inside its bounds: every candidate has a capacity
/// the chunker produces, runs its slots page by page, carries no band or
/// the canonical one, and, without a band, never repeats a historical
/// family either way round.
pub proof fn loi_les_combinaisons_sont_bornees(k: int)
    requires
        0 <= k < combos_jusqua(NB_ETATS as int).len(),
    ensures
        candidat_borne(combos_jusqua(NB_ETATS as int)[k]),
{
    lemme_combos_jusqua(NB_ETATS as int);
}

proof fn lemme_catalogue_sans_legende(fs: Seq<(Seq<char>, usize, Page, Page, Ordre, i64)>)
    requires
        forall|k: int| 0 <= k < fs.len() ==> (#[trigger] fs[k]).5 == 0,
    ensures
        forall|k: int| 0 <= k < catalogue_de(fs).len() ==> (#[trigger] catalogue_de(fs)[k]).5 == 0,
    decreases fs.len(),
{
    if fs.len() > 0 {
        let t = fs.drop_last();
        assert forall|k: int| 0 <= k < t.len() implies (#[trigger] t[k]).5 == 0 by {
            assert(t[k] == fs[k]);
        }
        lemme_catalogue_sans_legende(t);
        let a = catalogue_de(t);
        let b = avec_verso(fs.last());
        assert(fs.last() == fs[fs.len() - 1]);
        assert forall|k: int| 0 <= k < catalogue_de(fs).len() implies (#[trigger] catalogue_de(fs)[k]).5 == 0 by {
            if k < a.len() {
                assert(catalogue_de(fs)[k] == a[k]);
            } else {
                assert(catalogue_de(fs)[k] == b[k - a.len()]);
            }
        }
    }
}

/// The historical catalogue declares no caption band and no overlay: its
/// captions keep hunting the free margin spots.
pub proof fn loi_le_catalogue_historique_ne_declare_aucune_legende(k: int)
    requires
        0 <= k < catalogue_de(familles_de()).len(),
    ensures
        catalogue_de(familles_de())[k].5 == 0,
{
    let fs = familles_de();
    assert forall|q: int| 0 <= q < fs.len() implies (#[trigger] fs[q]).5 == 0 by {}
    lemme_catalogue_sans_legende(fs);
}

/// Generated templates the bench measured green on the three reference
/// sets. The name is the whole declaration: it encodes the parameters, and
/// [`offerts`] reads them back from it.
pub const RETENUS: [&'static str; 186] = [
    "g_v_p_b8", "g_v_1x1q_b8", "g_v_1x1c_b8", "g_v_1x1l_b8", "g_v_1x1n_b8", "g_v_1x1f",
    "g_v_1x1f_b8", "g_v_1x2q", "g_v_1x2q_b8", "g_v_1x2c", "g_v_1x2c_b8", "g_v_1x2l",
    "g_v_1x2l_b8", "g_v_1x2f", "g_v_1x2f_b8", "g_v_1x3q", "g_v_1x3q_b8", "g_v_1x3c",
    "g_v_1x3c_b8", "g_v_1x3l", "g_v_1x3l_b8", "g_v_1x4c", "g_v_1x4c_b8", "g_v_1x4l",
    "g_v_1x4l_b8", "g_v_2x1q", "g_v_2x1q_b8", "g_v_2x1c", "g_v_2x1c_b8", "g_v_2x1l",
    "g_v_2x1l_b8", "g_v_2x1f", "g_v_2x1f_b8", "g_v_2x2c", "g_v_2x2c_b8", "g_v_2x2l",
    "g_v_2x2l_b8", "g_v_2x2f", "g_v_2x2f_b8", "g_v_3x1q", "g_v_3x1q_b8", "g_v_3x1c",
    "g_v_3x1c_b8", "g_v_3x1l", "g_v_3x1l_b8", "g_v_4x1c", "g_v_4x1c_b8", "g_v_4x1l",
    "g_v_4x1l_b8", "g_p_p_b8", "g_p_1x1q", "g_p_1x1q_b8", "g_p_1x1c", "g_p_1x1c_b8",
    "g_p_1x1l", "g_p_1x1l_b8", "g_p_1x1f", "g_p_1x1f_b8", "g_p_1x2q", "g_p_1x2q_b8",
    "g_p_1x2c", "g_p_1x2c_b8", "g_p_1x2l_b8", "g_p_1x3c", "g_p_1x3c_b8", "g_p_1x3l",
    "g_p_1x3l_b8", "g_p_2x1q_b8", "g_p_2x1c", "g_p_2x1c_b8", "g_p_2x1l", "g_p_2x1l_b8",
    "g_p_3x1c", "g_p_3x1c_b8", "g_p_3x1l", "g_p_3x1l_b8", "g_1x1q_1x1q_b8", "g_1x1q_1x1c",
    "g_1x1q_1x1c_b8", "g_1x1q_1x1f", "g_1x1q_1x1f_b8", "g_1x1q_1x2q", "g_1x1q_1x2q_b8",
    "g_1x1q_1x2c", "g_1x1q_1x2c_b8", "g_1x1q_2x1q", "g_1x1q_2x1q_b8", "g_1x1q_2x1c",
    "g_1x1q_2x1c_b8", "g_1x1c_1x1c", "g_1x1c_1x1c_b8", "g_1x1c_1x1l", "g_1x1c_1x1l_b8",
    "g_1x1c_1x1f", "g_1x1c_1x1f_b8", "g_1x1c_1x2q", "g_1x1c_1x2q_b8", "g_1x1c_1x2c",
    "g_1x1c_1x2c_b8", "g_1x1c_1x2l", "g_1x1c_1x2l_b8", "g_1x1c_1x3c", "g_1x1c_1x3c_b8",
    "g_1x1c_1x3l", "g_1x1c_1x3l_b8", "g_1x1c_2x1q", "g_1x1c_2x1q_b8", "g_1x1c_2x1c",
    "g_1x1c_2x1c_b8", "g_1x1c_2x1l", "g_1x1c_2x1l_b8", "g_1x1c_3x1c", "g_1x1c_3x1c_b8",
    "g_1x1c_3x1l", "g_1x1c_3x1l_b8", "g_1x1l_1x1l_b8", "g_1x1l_1x1f", "g_1x1l_1x1f_b8",
    "g_1x1l_1x2c", "g_1x1l_1x2c_b8", "g_1x1l_1x2l", "g_1x1l_1x2l_b8", "g_1x1l_1x3c",
    "g_1x1l_1x3c_b8", "g_1x1l_1x3l", "g_1x1l_1x3l_b8", "g_1x1l_2x1c", "g_1x1l_2x1c_b8",
    "g_1x1l_2x1l", "g_1x1l_2x1l_b8", "g_1x1l_3x1c", "g_1x1l_3x1c_b8", "g_1x1l_3x1l",
    "g_1x1l_3x1l_b8", "g_1x1f_1x1f_b8", "g_1x1f_1x2q", "g_1x1f_1x2q_b8", "g_1x1f_1x2c",
    "g_1x1f_1x2c_b8", "g_1x1f_1x2l", "g_1x1f_1x2l_b8", "g_1x1f_1x3c", "g_1x1f_1x3c_b8",
    "g_1x1f_1x3l", "g_1x1f_1x3l_b8", "g_1x1f_2x1q", "g_1x1f_2x1q_b8", "g_1x1f_2x1c",
    "g_1x1f_2x1c_b8", "g_1x1f_2x1l", "g_1x1f_2x1l_b8", "g_1x1f_3x1c", "g_1x1f_3x1c_b8",
    "g_1x1f_3x1l", "g_1x1f_3x1l_b8", "g_1x2c_1x2c", "g_1x2c_1x2c_b8", "g_1x2c_1x2l",
    "g_1x2c_1x2l_b8", "g_1x2c_1x2f", "g_1x2c_1x2f_b8", "g_1x2c_2x1c", "g_1x2c_2x1c_b8",
    "g_1x2c_2x1l", "g_1x2c_2x1l_b8", "g_1x2l_1x2l_b8", "g_1x2l_1x2f", "g_1x2l_1x2f_b8",
    "g_1x2l_2x1c", "g_1x2l_2x1c_b8", "g_1x2l_2x1l", "g_1x2l_2x1l_b8", "g_1x2f_1x2f",
    "g_1x2f_1x2f_b8", "g_1x2f_2x1c", "g_1x2f_2x1c_b8", "g_1x2f_2x1l", "g_1x2f_2x1l_b8",
    "g_2x1c_2x1c", "g_2x1c_2x1c_b8", "g_2x1c_2x1l", "g_2x1c_2x1l_b8", "g_2x1l_2x1l",
    "g_2x1l_2x1l_b8", "g_2x1f_2x1f", "g_2x1f_2x1f_b8"
];

fn code_coupe_de(code: &Vec<char>) -> (b: bool)
    ensures
        b == code_coupe(code@),
{
    proof {
        if code@ == seq!['v'] || code@ == seq!['p'] {
            assert(code@.len() == 1);
        }
    }
    if code.len() == 1 && (code[0] == 'v' || code[0] == 'p') {
        assert(code@ =~= seq![code@[0]]);
        return false;
    }
    code.len() > 0 && (code[code.len() - 1] as u32) >= 0x80
}

/// Whether reading `nom` as a generated name leaves every character whole.
pub fn nom_lisible(nom: &str) -> (b: bool)
    ensures
        b == !nom_coupe(nom@),
{
    let v = caracteres(nom);
    let n = v.len();
    let suffixe = caracteres("_verso");
    proof {
        reveal_strlit("_verso");
        assert(suffixe@ =~= seq!['_', 'v', 'e', 'r', 's', 'o']);
    }
    let est_verso = n >= 6 && egales(tranche(v.as_slice(), n - 6, n).as_slice(), suffixe.as_slice());
    let corps = if est_verso { tranche(v.as_slice(), 0, n - 6) } else { tranche(v.as_slice(), 0, n) };
    proof {
        if !est_verso {
            assert(corps@ =~= v@);
        }
        assert(sans_verso(nom@) == (corps@, est_verso));
    }
    let p = couper(&corps, '_');
    proof {
        lemme_morceaux_non_vide(corps@, '_');
    }
    let g = p[0].len() == 1 && p[0][0] == 'g';
    proof {
        if g {
            assert(p@[0]@ =~= seq!['g']);
        } else if p@[0]@ == seq!['g'] {
            assert(p@[0]@.len() == 1);
        }
    }
    if !g || p.len() < 2 {
        return true;
    }
    if code_coupe_de(&p[1]) {
        return false;
    }
    !(page_de(&p[1]).is_some() && p.len() >= 3 && code_coupe_de(&p[2]))
}

/// A retained name as the offered list holds it: the template it declares,
/// then its derived verso when the layout is asymmetric. Nothing for a name
/// that does not read as a generated template.
pub open spec fn offert_de(nom: Seq<char>) -> Seq<(Seq<char>, usize, Page, Page, Ordre, i64)> {
    if nom_coupe(nom) {
        Seq::empty()
    } else {
        match genere_de(nom) {
            None => Seq::empty(),
            Some(g) => {
                let s = (nom, g.capacite, g.gauche, g.droite, g.ordre, g.bande_mm as i64);
                if g.gauche != g.droite { seq![s, verso_de(s)] } else { seq![s] }
            },
        }
    }
}

pub open spec fn retenus_de(noms: Seq<&str>) -> Seq<(Seq<char>, usize, Page, Page, Ordre, i64)>
    decreases noms.len(),
{
    if noms.len() == 0 {
        Seq::empty()
    } else {
        retenus_de(noms.drop_last()) + offert_de(noms.last()@)
    }
}

/// The whole offered list: the historical catalogue, then every retained
/// generated template with its derived verso.
pub open spec fn offerts_de() -> Seq<(Seq<char>, usize, Page, Page, Ordre, i64)> {
    catalogue_de(familles_de()) + retenus_de(RETENUS@)
}

fn depuis_genere(nom: &str, g: Genere) -> (s: Spec)
    ensures
        vue_spec(s) == (nom@, g.capacite, g.gauche, g.droite, g.ordre, g.bande_mm as i64),
{
    Spec { nom: nom.to_owned(), capacite: g.capacite, gauche: g.gauche, droite: g.droite, ordre: g.ordre, legende: g.bande_mm as i64 }
}

/// The whole offered list: the locked historical catalogue, then every
/// retained generated template with its derived verso. The picker, the
/// keyboard cycle and the dump all read this.
pub fn offerts() -> (r: Vec<Spec>)
    ensures
        vues_specs(r@) == offerts_de(),
{
    let mut out = catalogue();
    let t = RETENUS;
    let ghost cat = catalogue_de(familles_de());
    let mut k: usize = 0;
    assert(t@.take(0) =~= Seq::<&str>::empty());
    assert(cat + retenus_de(t@.take(0)) =~= cat);
    while k < t.len()
        invariant
            t@ == RETENUS@,
            k <= t@.len(),
            cat == catalogue_de(familles_de()),
            vues_specs(out@) == cat + retenus_de(t@.take(k as int)),
        decreases t.len() - k,
    {
        let nom = t[k];
        proof {
            assert(t@.take(k as int + 1).drop_last() =~= t@.take(k as int));
            assert(t@.take(k as int + 1).last() == nom);
        }
        let ghost vo = vues_specs(out@);
        if nom_lisible(nom) {
            match parse_genere(nom) {
                Some(g) => {
                    let s = depuis_genere(nom, g);
                    let asym = !s.symetrique();
                    if asym {
                        let m = verso(&s);
                        out.push(s);
                        out.push(m);
                    } else {
                        out.push(s);
                    }
                    assert(vues_specs(out@) =~= vo + offert_de(nom@));
                },
                None => {
                    assert(vues_specs(out@) =~= vo + offert_de(nom@));
                },
            }
        } else {
            assert(vues_specs(out@) =~= vo + offert_de(nom@));
        }
        k = k + 1;
    }
    assert(t@.take(k as int) =~= t@);
    out
}

/// The first offered template named `nom`.
pub open spec fn premier_nomme(o: Seq<(Seq<char>, usize, Page, Page, Ordre, i64)>, nom: Seq<char>) -> Option<int>
    decreases o.len(),
{
    if o.len() == 0 {
        None
    } else {
        match premier_nomme(o.drop_last(), nom) {
            Some(k) => Some(k),
            None => if o.last().0 == nom { Some(o.len() - 1) } else { None },
        }
    }
}

/// The template a spread names: the offered one of that name, or, for a
/// generated name the offered list no longer holds (another machine, a
/// later measurement), the template its name declares, so an album carried
/// by hand still renders exactly.
pub fn gabarit_nomme(nom: &str) -> (r: Option<Spec>)
    requires
        premier_nomme(offerts_de(), nom@) is Some || !nom_coupe(nom@),
    ensures
        match premier_nomme(offerts_de(), nom@) {
            Some(k) => r matches Some(s) && vue_spec(s) == offerts_de()[k],
            None => match genere_de(nom@) {
                Some(g) => r matches Some(s) && vue_spec(s) == (nom@, g.capacite, g.gauche, g.droite, g.ordre, g.bande_mm as i64),
                None => r is None,
            },
        },
{
    let o = offerts();
    let ghost ov = vues_specs(o@);
    let v = caracteres(nom);
    let mut k: usize = 0;
    assert(ov.take(0) =~= Seq::<(Seq<char>, usize, Page, Page, Ordre, i64)>::empty());
    while k < o.len()
        invariant
            ov == vues_specs(o@),
            ov == offerts_de(),
            v@ == nom@,
            k <= o@.len(),
            premier_nomme(ov.take(k as int), nom@) is None,
        decreases o.len() - k,
    {
        proof {
            assert(ov.take(k as int + 1).drop_last() =~= ov.take(k as int));
            assert(ov.take(k as int + 1).last() == ov[k as int]);
        }
        if egales(caracteres(o[k].nom.as_str()).as_slice(), v.as_slice()) {
            assert(premier_nomme(ov.take(k as int + 1), nom@) == Some(k as int));
            proof {
                lemme_premier_nomme_prefixe(ov, nom@, k as int + 1);
            }
            return Some(copie_spec(&o[k]));
        }
        k = k + 1;
    }
    assert(ov.take(k as int) =~= ov);
    match parse_genere(nom) {
        Some(g) => Some(depuis_genere(nom, g)),
        None => None,
    }
}

/// A name found in a prefix is found at the same place in the whole list.
proof fn lemme_premier_nomme_prefixe(o: Seq<(Seq<char>, usize, Page, Page, Ordre, i64)>, nom: Seq<char>, k: int)
    requires
        0 <= k <= o.len(),
        premier_nomme(o.take(k), nom) is Some,
    ensures
        premier_nomme(o, nom) == premier_nomme(o.take(k), nom),
    decreases o.len() - k,
{
    if k < o.len() {
        assert(o.take(k + 1).drop_last() =~= o.take(k));
        lemme_premier_nomme_prefixe(o, nom, k + 1);
    } else {
        assert(o.take(k) =~= o);
    }
}

} // verus!
