//! Spread composition: the pace (how many photos a spread absorbs, when a
//! breathing page is owed, which template families can hold a chunk) and
//! the placing of a chapter's photographs on spreads: which photograph opens
//! it, which ones a grid gathers, and the rule that every photograph lands
//! on exactly one spread and never beside its twin. Scores, aspect ratios
//! and the fitting of templates to cells are measured on the pixels and the
//! page geometry, and arrive here as plain answers.

use vstd::prelude::*;
use crate::audit::{FLAT_RUN, famille, famille_de};
use crate::chaines::egales;
use crate::chaines::caracteres;
use crate::gabarit::{catalogue, catalogue_de, familles_de, vue_spec, vues_specs};

verus! {

/// How much of the album the composer puts on a spread. The same photos,
/// the same rules, three paces.
#[derive(Debug, Clone, Copy, PartialEq, Eq, Structural)]
pub enum Densite {
    /// Few photos per spread, a breathing page often.
    Aeree,
    /// The pace the counters were tuned against, and the default.
    Equilibree,
    /// Mosaics of six and eight. Not offered yet: it leaves cells under the
    /// resolution floor on a reference set.
    Dense,
}

/// Photos per spread, cycled through so the book keeps changing pace.
pub open spec fn rythme(d: Densite) -> Seq<usize> {
    match d {
        Densite::Aeree => seq![1, 2, 2, 3, 1, 2, 4, 2, 1, 3],
        Densite::Equilibree => seq![2, 3, 4, 2, 6, 3, 2, 8, 4, 3],
        Densite::Dense => seq![3, 4, 6, 3, 8, 4, 6, 8, 4, 6],
    }
}

pub open spec fn somme(s: Seq<usize>) -> nat
    decreases s.len(),
{
    if s.len() == 0 {
        0
    } else {
        somme(s.drop_last()) + s.last() as nat
    }
}

/// The identifier a pace is stored and asked for under.
pub open spec fn id_de(d: Densite) -> Seq<char> {
    match d {
        Densite::Aeree => seq!['a', 'e', 'r', 'e', 'e'],
        Densite::Equilibree => seq!['e', 'q', 'u', 'i', 'l', 'i', 'b', 'r', 'e', 'e'],
        Densite::Dense => seq!['d', 'e', 'n', 's', 'e'],
    }
}

/// The sizes a template can lay out.
pub open spec fn taille_valide(n: int) -> bool {
    n == 1 || n == 2 || n == 3 || n == 4 || n == 6 || n == 8
}

/// The largest size a template can lay out that does not exceed `n`
/// (`n` at least 1).
pub open spec fn plus_grande_valide(n: int) -> int
    decreases n,
{
    if n <= 1 {
        1
    } else if taille_valide(n) {
        n
    } else {
        plus_grande_valide(n - 1)
    }
}

pub proof fn lemme_plus_grande_valide(n: int)
    ensures
        taille_valide(plus_grande_valide(n)),
        1 <= plus_grande_valide(n),
        n >= 1 ==> plus_grande_valide(n) <= n,
        forall|m: int| plus_grande_valide(n) < m <= n ==> !taille_valide(m),
    decreases n,
{
    if n > 1 && !taille_valide(n) {
        lemme_plus_grande_valide(n - 1);
    }
}

impl Densite {
    /// The default pace.
    pub fn defaut() -> (d: Densite)
        ensures
            d == Densite::Equilibree,
    {
        Densite::Equilibree
    }

    /// Photos per spread, cycled through so the book keeps changing pace.
    pub fn rhythm(self) -> (r: &'static [usize])
        ensures
            r@ == rythme(self),
    {
        match self {
            Densite::Aeree => {
                let r: &'static [usize] = &[1, 2, 2, 3, 1, 2, 4, 2, 1, 3];
                assert(r@ =~= rythme(self));
                r
            },
            Densite::Equilibree => {
                let r: &'static [usize] = &[2, 3, 4, 2, 6, 3, 2, 8, 4, 3];
                assert(r@ =~= rythme(self));
                r
            },
            Densite::Dense => {
                let r: &'static [usize] = &[3, 4, 6, 3, 8, 4, 6, 8, 4, 6];
                assert(r@ =~= rythme(self));
                r
            },
        }
    }
}

/// After this many spreads without a breathing page, one is promoted.
pub open spec fn apres_pleine(d: Densite) -> usize {
    match d {
        Densite::Aeree => 3,
        Densite::Equilibree => 5,
        Densite::Dense => 6,
    }
}

/// Never two breathing pages closer than this.
pub open spec fn espacement(d: Densite) -> usize {
    match d {
        Densite::Aeree => 2,
        Densite::Equilibree => 4,
        Densite::Dense => 5,
    }
}

pub open spec fn nom_de(d: Densite) -> Seq<char> {
    match d {
        Densite::Aeree => "Aérée"@,
        Densite::Equilibree => "Équilibrée"@,
        Densite::Dense => "Dense"@,
    }
}

pub open spec fn about_de(d: Densite) -> Seq<char> {
    match d {
        Densite::Aeree => "Une ou deux photos par double page, souvent une seule en grand. Moins de photos retenues, chacune plus grande."@,
        Densite::Equilibree => "Deux à quatre photos, avec des mosaïques de temps en temps. Le rythme par défaut."@,
        Densite::Dense => "Des mosaïques de quatre à huit photos. Beaucoup plus de photos retenues, plus petites."@,
    }
}

/// The pace stored under an identifier, if any.
pub open spec fn densite_par_id(s: Seq<char>) -> Option<Densite> {
    if s == id_de(Densite::Aeree) {
        Some(Densite::Aeree)
    } else if s == id_de(Densite::Equilibree) {
        Some(Densite::Equilibree)
    } else if s == id_de(Densite::Dense) {
        Some(Densite::Dense)
    } else {
        None
    }
}

impl Densite {
    /// After this many spreads without a breathing page, promote one.
    pub fn force_full_after(self) -> (n: usize)
        ensures
            n == apres_pleine(self),
    {
        match self {
            Densite::Aeree => 3,
            Densite::Equilibree => 5,
            Densite::Dense => 6,
        }
    }

    /// Never two breathing pages closer than this.
    pub fn min_break_spacing(self) -> (n: usize)
        ensures
            n == espacement(self),
    {
        match self {
            Densite::Aeree => 2,
            Densite::Equilibree => 4,
            Densite::Dense => 5,
        }
    }

    /// Average photos per spread of the rhythm, times ten.
    pub fn photos_per_spread_x10(self) -> (n: usize)
        ensures
            n == somme(rythme(self)) * 10 / rythme(self).len(),
    {
        let r = self.rhythm();
        let mut total: usize = 0;
        let mut i: usize = 0;
        while i < r.len()
            invariant
                r@ == rythme(self),
                i <= r@.len(),
                total == somme(r@.subrange(0, i as int)),
                total <= 8 * i,
            decreases r.len() - i,
        {
            proof {
                let t = r@.subrange(0, i as int + 1);
                assert(t.drop_last() =~= r@.subrange(0, i as int));
                assert(r@[i as int] <= 8);
            }
            total = total + r[i];
            i = i + 1;
        }
        assert(r@.subrange(0, i as int) =~= r@);
        total * 10 / r.len()
    }

    /// The identifier a pace is stored under.
    pub fn id(self) -> (s: &'static str)
        ensures
            s@ == id_de(self),
    {
        match self {
            Densite::Aeree => {
                proof { reveal_strlit("aeree"); }
                "aeree"
            },
            Densite::Equilibree => {
                proof { reveal_strlit("equilibree"); }
                "equilibree"
            },
            Densite::Dense => {
                proof { reveal_strlit("dense"); }
                "dense"
            },
        }
    }

    /// The pace's name, as the screen writes it.
    pub fn nom(self) -> (s: &'static str)
        ensures
            s@ == nom_de(self),
    {
        match self {
            Densite::Aeree => "Aérée",
            Densite::Equilibree => "Équilibrée",
            Densite::Dense => "Dense",
        }
    }

    /// One sentence, for the screen that asks: what changes for the reader.
    pub fn about(self) -> (s: &'static str)
        ensures
            s@ == about_de(self),
    {
        match self {
            Densite::Aeree => "Une ou deux photos par double page, souvent une seule en grand. Moins de photos retenues, chacune plus grande.",
            Densite::Equilibree => "Deux à quatre photos, avec des mosaïques de temps en temps. Le rythme par défaut.",
            Densite::Dense => "Des mosaïques de quatre à huit photos. Beaucoup plus de photos retenues, plus petites.",
        }
    }

    /// The pace stored under `id`, if any.
    pub fn par_id(id: &str) -> (r: Option<Densite>)
        ensures
            r == densite_par_id(id@),
    {
        let v = caracteres(id);
        let a = caracteres(Densite::Aeree.id());
        if egales(&v, &a) {
            return Some(Densite::Aeree);
        }
        let e = caracteres(Densite::Equilibree.id());
        if egales(&v, &e) {
            return Some(Densite::Equilibree);
        }
        let d = caracteres(Densite::Dense.id());
        if egales(&v, &d) {
            return Some(Densite::Dense);
        }
        None
    }

    /// Every pace the engine can compose at.
    pub fn toutes() -> (r: [Densite; 3])
        ensures
            r@ == seq![Densite::Aeree, Densite::Equilibree, Densite::Dense],
    {
        let r = [Densite::Aeree, Densite::Equilibree, Densite::Dense];
        assert(r@ =~= seq![Densite::Aeree, Densite::Equilibree, Densite::Dense]);
        r
    }

    /// The paces the creation screen offers: not the dense one yet.
    pub fn offertes() -> (r: &'static [Densite])
        ensures
            r@ == seq![Densite::Aeree, Densite::Equilibree],
    {
        let r: &'static [Densite] = &[Densite::Aeree, Densite::Equilibree];
        assert(r@ =~= seq![Densite::Aeree, Densite::Equilibree]);
        r
    }

    /// Whether this is the pace an album gets when nobody chose.
    pub fn is_default(&self) -> (b: bool)
        ensures
            b == (*self == Densite::Equilibree),
    {
        *self == Densite::defaut()
    }
}

/// Average photos per spread of the default pace, times ten. Kept as a
/// constant because it is what every caller that does not care about the
/// density reads.
pub const PHOTOS_PER_SPREAD_X10: usize = 37;

/// The constant is what the default pace's own rhythm averages.
pub proof fn loi_la_constante_suit_le_rythme_par_defaut()
    ensures
        PHOTOS_PER_SPREAD_X10 == somme(rythme(Densite::Equilibree)) * 10 / rythme(Densite::Equilibree).len(),
{
    let r = rythme(Densite::Equilibree);
    assert(somme(r.subrange(0, 0)) == 0);
    assert(r.subrange(0, 1).drop_last() =~= r.subrange(0, 0));
    assert(somme(r.subrange(0, 1)) == 2);
    assert(r.subrange(0, 2).drop_last() =~= r.subrange(0, 1));
    assert(somme(r.subrange(0, 2)) == 5);
    assert(r.subrange(0, 3).drop_last() =~= r.subrange(0, 2));
    assert(somme(r.subrange(0, 3)) == 9);
    assert(r.subrange(0, 4).drop_last() =~= r.subrange(0, 3));
    assert(somme(r.subrange(0, 4)) == 11);
    assert(r.subrange(0, 5).drop_last() =~= r.subrange(0, 4));
    assert(somme(r.subrange(0, 5)) == 17);
    assert(r.subrange(0, 6).drop_last() =~= r.subrange(0, 5));
    assert(somme(r.subrange(0, 6)) == 20);
    assert(r.subrange(0, 7).drop_last() =~= r.subrange(0, 6));
    assert(somme(r.subrange(0, 7)) == 22);
    assert(r.subrange(0, 8).drop_last() =~= r.subrange(0, 7));
    assert(somme(r.subrange(0, 8)) == 30);
    assert(r.subrange(0, 9).drop_last() =~= r.subrange(0, 8));
    assert(somme(r.subrange(0, 9)) == 34);
    assert(r.subrange(0, 10).drop_last() =~= r.subrange(0, 9));
    assert(somme(r.subrange(0, 10)) == 37);
    assert(r.subrange(0, 10) =~= r);
}

/// An identifier names its pace back: what is stored reads as what was
/// chosen.
pub proof fn loi_id_par_id(d: Densite)
    ensures
        densite_par_id(id_de(d)) == Some(d),
{
    assert(id_de(Densite::Aeree)[0] != id_de(Densite::Dense)[0]);
    assert(id_de(Densite::Equilibree).len() != id_de(Densite::Aeree).len());
    assert(id_de(Densite::Equilibree).len() != id_de(Densite::Dense).len());
}

/// Every pace's rhythm only asks for sizes a template can lay out.
pub proof fn loi_rythme_tient_dans_un_gabarit(d: Densite, i: int)
    requires
        0 <= i < rythme(d).len(),
    ensures
        taille_valide(rythme(d)[i] as int),
{
}

/// No pace lets a stretch without a breathing page grow long enough for the
/// linter to call it flat, and none promotes breathing pages closer than
/// its own spacing allows.
pub proof fn loi_respiration_avant_le_plat(d: Densite)
    ensures
        apres_pleine(d) <= FLAT_RUN,
        espacement(d) < apres_pleine(d),
{
}

/// The pace offered to everyone is never the one left out, and the default
/// is offered.
pub proof fn loi_offertes(d: Densite)
    ensures
        seq![Densite::Aeree, Densite::Equilibree].contains(d) <==> d != Densite::Dense,
{
    if d != Densite::Dense {
        if d == Densite::Aeree {
            assert(seq![Densite::Aeree, Densite::Equilibree][0] == d);
        } else {
            assert(seq![Densite::Aeree, Densite::Equilibree][1] == d);
        }
    }
}

// --- Chunk sizes -----------------------------------------------------------------

/// Never a fourth spread of the same template family in a row.
pub const REPEAT_LIMIT: usize = 3;

/// What `clamp_take` makes of a wished take: the largest layable size within
/// what remains, stepped down once more when it would leave a single photo
/// behind.
pub open spec fn prise_bornee(take: int, remaining: int) -> int {
    let t = plus_grande_valide(if take < remaining { take } else { remaining });
    if t > 1 && remaining - t == 1 {
        plus_grande_valide(t - 1)
    } else {
        t
    }
}

fn plus_grande_valide_de(n: usize) -> (r: usize)
    ensures
        r == plus_grande_valide(n as int),
{
    let mut t = if n < 1 { 1 } else { n };
    proof {
        if n < 1 {
            assert(plus_grande_valide(n as int) == 1);
        }
    }
    while !(t == 1 || t == 2 || t == 3 || t == 4 || t == 6 || t == 8)
        invariant
            1 <= t,
            t <= n || t == 1,
            plus_grande_valide(n as int) == plus_grande_valide(t as int),
        decreases t,
    {
        t = t - 1;
    }
    t
}

/// Clamp a take to the sizes a template can hold, never leaving a lonely
/// photo behind when a bigger step was asked for.
pub fn clamp_take(take: usize, remaining: usize) -> (r: usize)
    ensures
        r as int == prise_bornee(take as int, remaining as int),
        taille_valide(r as int),
        1 <= r,
        remaining >= 1 ==> r <= remaining,
        take >= 1 ==> r <= take,
        remaining >= 2 && plus_grande_valide(if take < remaining { take as int } else { remaining as int }) > 1
            ==> remaining - r != 1,
{
    let m = if take < remaining { take } else { remaining };
    let mut t = plus_grande_valide_de(m);
    proof {
        lemme_plus_grande_valide(m as int);
    }
    if t > 1 && remaining - t == 1 {
        proof {
            lemme_plus_grande_valide(t - 1);
        }
        t = plus_grande_valide_de(t - 1);
    }
    t
}

pub open spec fn prise_rythmee(remaining: int, beat: int, d: Densite) -> int {
    if remaining <= 4 {
        if remaining < 1 { 1 } else { remaining }
    } else if remaining == 5 {
        3
    } else if remaining == 7 {
        4
    } else {
        let r = rythme(d)[beat % 10] as int;
        let t = if r < remaining { r } else { remaining };
        plus_grande_valide(if remaining - t == 1 { t - 1 } else { t })
    }
}

/// How many photos the next spread absorbs, given how many remain in the
/// chapter and where the book stands in its rhythm. Only counts a template
/// can lay out come back, and a lonely leftover is never created.
pub fn chunk_size(remaining: usize, beat: usize, densite: Densite) -> (r: usize)
    ensures
        r as int == prise_rythmee(remaining as int, beat as int, densite),
        taille_valide(r as int) || remaining == 0,
        1 <= r,
        remaining >= 1 ==> r <= remaining,
        remaining >= 2 ==> remaining - r != 1,
{
    if remaining <= 4 {
        return if remaining < 1 { 1 } else { remaining };
    }
    if remaining == 5 {
        return 3;
    }
    if remaining == 7 {
        return 4;
    }
    let rhythm = densite.rhythm();
    let mut take = rhythm[beat % rhythm.len()];
    proof {
        loi_rythme_tient_dans_un_gabarit(densite, (beat % 10) as int);
    }
    if take > remaining {
        take = remaining;
    }
    if remaining - take == 1 {
        take = take - 1;
    }
    let r = plus_grande_valide_de(take);
    proof {
        lemme_plus_grande_valide(take as int);
    }
    r
}

/// A chapter must never compose into a single spread: when the grid that
/// opens it would take every photo, it takes half of them, rounded up.
pub open spec fn partage_de(i: int, take: int, remaining: int) -> int {
    if i == 0 && take == remaining && remaining >= 2 {
        (remaining + 1) / 2
    } else {
        take
    }
}

/// The opening grid of a chapter, split when it would hold the whole
/// chapter.
pub fn partage_du_chapitre(i: usize, take: usize, remaining: usize) -> (r: usize)
    ensures
        r as int == partage_de(i as int, take as int, remaining as int),
{
    if i == 0 && take == remaining && remaining >= 2 {
        remaining / 2 + remaining % 2
    } else {
        take
    }
}

/// A chapter of two photos or more never fits on one spread: the opening
/// grid, once split and clamped to a layable size, leaves some behind.
pub proof fn loi_un_chapitre_tient_sur_deux_planches_au_moins(take: int, remaining: int)
    requires
        remaining >= 2,
        1 <= take <= remaining,
    ensures
        prise_bornee(partage_de(0, take, remaining), remaining) < remaining,
{
    let t = partage_de(0, take, remaining);
    let m = if t < remaining { t } else { remaining };
    lemme_plus_grande_valide(m);
    let p = plus_grande_valide(m);
    if p > 1 && remaining - p == 1 {
        lemme_plus_grande_valide(p - 1);
    }
}

/// The length of the longest prefix of a chunk free of same-spread
/// near-duplicates, from the twin relation between its photos:
/// `jumelles[j][k]`, for `k < j`, says photos `j` and `k` must never share a
/// spread. A chunk holds at least one photo.
pub fn dup_prefix(jumelles: &[Vec<bool>]) -> (n: usize)
    requires
        forall|j: int| 0 <= j < jumelles@.len() ==> (#[trigger] jumelles@[j])@.len() >= j,
    ensures
        1 <= n,
        n <= jumelles@.len() || (jumelles@.len() == 0 && n == 1),
        forall|j: int, k: int| 0 <= k < j < n && j < jumelles@.len() ==> !(#[trigger] jumelles@[j]@[k]),
        n < jumelles@.len() ==> exists|k: int| 0 <= k < n && #[trigger] jumelles@[n as int]@[k],
{
    let l = jumelles.len();
    let mut j: usize = 1;
    while j < l
        invariant
            l == jumelles@.len(),
            1 <= j,
            j <= l || l == 0,
            forall|q: int| 0 <= q < jumelles@.len() ==> (#[trigger] jumelles@[q])@.len() >= q,
            forall|a: int, k: int| 0 <= k < a < j && a < l ==> !(#[trigger] jumelles@[a]@[k]),
        decreases l - j,
    {
        let ligne = &jumelles[j];
        let mut k: usize = 0;
        while k < j
            invariant
                l == jumelles@.len(),
                1 <= j < l,
                *ligne == jumelles@[j as int],
                ligne@.len() >= j,
                k <= j,
                forall|q: int| 0 <= q < k ==> !ligne@[q],
                forall|a: int, q: int| 0 <= q < a < j && a < l ==> !(#[trigger] jumelles@[a]@[q]),
            decreases j - k,
        {
            if ligne[k] {
                assert(jumelles@[j as int]@[k as int]);
                return j;
            }
            k = k + 1;
        }
        j = j + 1;
    }
    if l == 0 { 1 } else { l }
}

/// The template families able to hold a chunk of this size, in the order
/// they are tried.
pub open spec fn familles_pour(n: int) -> Seq<Seq<char>> {
    if n == 1 {
        seq!["solo_etroit"@, "solo"@, "solo_carre"@, "solo_paysage"@, "solo_pano"@]
    } else if n == 2 {
        seq!["duo"@, "duo_portrait"@, "duo_paysage"@, "duo_etroit"@, "duo_pano"@]
    } else if n == 3 {
        seq!["trio"@, "trio_portrait"@]
    } else if n == 4 {
        seq!["quad"@, "quad_portrait"@, "quad_etroit"@, "quad_pano"@]
    } else if n == 6 {
        seq!["six"@]
    } else if n == 8 {
        seq!["octo"@]
    } else {
        Seq::empty()
    }
}

/// Template families able to hold a chunk of this size.
pub fn families_for(n: usize) -> (r: &'static [&'static str])
    ensures
        r@.len() == familles_pour(n as int).len(),
        forall|i: int| 0 <= i < r@.len() ==> (#[trigger] r@[i])@ == familles_pour(n as int)[i],
        r@.len() > 0 <==> taille_valide(n as int),
{
    if n == 1 {
        let r: &'static [&'static str] = &["solo_etroit", "solo", "solo_carre", "solo_paysage", "solo_pano"];
        r
    } else if n == 2 {
        let r: &'static [&'static str] = &["duo", "duo_portrait", "duo_paysage", "duo_etroit", "duo_pano"];
        r
    } else if n == 3 {
        let r: &'static [&'static str] = &["trio", "trio_portrait"];
        r
    } else if n == 4 {
        let r: &'static [&'static str] = &["quad", "quad_portrait", "quad_etroit", "quad_pano"];
        r
    } else if n == 6 {
        let r: &'static [&'static str] = &["six"];
        r
    } else if n == 8 {
        let r: &'static [&'static str] = &["octo"];
        r
    } else {
        let r: &'static [&'static str] = &[];
        r
    }
}

/// Whatever the pace and wherever the book stands in it, the size the rhythm
/// asks for has a template family to hold it.
pub proof fn loi_le_rythme_a_toujours_un_gabarit(d: Densite, beat: nat)
    ensures
        familles_pour(rythme(d)[(beat % 10) as int] as int).len() > 0,
{
}

// --- The composer's state ------------------------------------------------------------

/// What the next spread is made of, before any template is tried.
#[derive(Debug, Clone, Copy, PartialEq, Eq, Structural)]
pub enum Prise {
    /// The chapter opens on a page of its own: the promoted opener.
    Ouverture,
    /// A standout photo earns a page to itself.
    Vedette,
    /// The rhythm owes a breathing page: the best nearby photo is pulled.
    Respiration,
    /// A grid, of the size the rhythm and the chunking settle on.
    Grille,
}

/// The composer's memory across spreads and chapters: facing pages keep
/// alternating, flat stretches and repeated families are album-wide.
pub struct Composer {
    /// Spreads composed so far, across the whole album.
    beat: usize,
    /// Spreads since the last breathing page (a single photo).
    since_break: usize,
    /// The current template family and how many spreads it has held in a row.
    family_run: (String, usize),
    densite: Densite,
}

/// The catalogue holds a verso of `base`.
pub open spec fn a_un_verso(base: Seq<char>) -> bool {
    exists|k: int| 0 <= k < catalogue_de(familles_de()).len()
        && (#[trigger] catalogue_de(familles_de())[k]).0 == base + "_verso"@
}

/// The decision a composer takes for the next spread, from the facts the
/// photographs give: `ouvre` when the chapter's first photo can carry a
/// page, `vedette` when the current one is a dated, high-scoring photo that
/// can.
pub open spec fn prise_de(
    since_break: usize,
    d: Densite,
    i: usize,
    remaining: usize,
    last_was_feature: bool,
    ouvre: bool,
    vedette: bool,
) -> Prise {
    if i == 0 && remaining >= crate::audit::OPENING_MIN_PHOTOS && ouvre {
        Prise::Ouverture
    } else if !last_was_feature && remaining != 2 && since_break >= espacement(d) && vedette {
        Prise::Vedette
    } else if !last_was_feature && remaining != 2 && since_break >= apres_pleine(d) {
        Prise::Respiration
    } else {
        Prise::Grille
    }
}

impl Composer {
    /// A composer at the default pace, before the first spread.
    pub fn new() -> (c: Composer)
        ensures
            c.beat() == 0,
            c.since_break() == 0,
            c.run()@ == Seq::<char>::empty(),
            c.run_len() == 0,
            c.pace() == Densite::Equilibree,
    {
        Composer::avec_densite(Densite::defaut())
    }

    /// A composer at this pace, before the first spread.
    pub fn avec_densite(densite: Densite) -> (c: Composer)
        ensures
            c.beat() == 0,
            c.since_break() == 0,
            c.run()@ == Seq::<char>::empty(),
            c.run_len() == 0,
            c.pace() == densite,
    {
        Composer { beat: 0, since_break: 0, family_run: (String::new(), 0), densite }
    }

    pub closed spec fn beat(&self) -> usize {
        self.beat
    }

    pub closed spec fn since_break(&self) -> usize {
        self.since_break
    }

    pub closed spec fn run(&self) -> String {
        self.family_run.0
    }

    pub closed spec fn run_len(&self) -> usize {
        self.family_run.1
    }

    pub closed spec fn pace(&self) -> Densite {
        self.densite
    }

    /// The pace this composer works at.
    pub fn densite(&self) -> (d: Densite)
        ensures
            d == self.pace(),
    {
        self.densite
    }

    /// Spreads composed so far; odd beats flip a layout onto its verso.
    pub fn beats(&self) -> (n: usize)
        ensures
            n == self.beat(),
    {
        self.beat
    }

    /// Spreads since the last breathing page.
    pub fn depuis_respiration(&self) -> (n: usize)
        ensures
            n == self.since_break(),
    {
        self.since_break
    }

    /// What the next spread is made of.
    pub fn prise(
        &self,
        i: usize,
        remaining: usize,
        last_was_feature: bool,
        ouvre: bool,
        vedette: bool,
    ) -> (p: Prise)
        ensures
            p == prise_de(self.since_break(), self.pace(), i, remaining, last_was_feature, ouvre, vedette),
    {
        if i == 0 && remaining >= crate::audit::OPENING_MIN_PHOTOS && ouvre {
            Prise::Ouverture
        } else if !last_was_feature && remaining != 2 && self.since_break >= self.densite.min_break_spacing()
            && vedette
        {
            Prise::Vedette
        } else if !last_was_feature && remaining != 2 && self.since_break >= self.densite.force_full_after() {
            Prise::Respiration
        } else {
            Prise::Grille
        }
    }

    /// The template name for a family: on odd beats, its verso when the
    /// catalogue has one, so facing layouts alternate sides.
    pub fn with_flip(&self, base: &str) -> (r: String)
        ensures
            r@ == (if self.beat() % 2 == 1 && a_un_verso(base@) { base@ + "_verso"@ } else { base@ }),
    {
        let verso = crate::chaines::concat(caracteres(base).as_slice(), caracteres("_verso").as_slice());
        if self.beat % 2 == 1 {
            let cat = catalogue();
            let ghost c = catalogue_de(familles_de());
            let mut k: usize = 0;
            while k < cat.len()
                invariant
                    c == catalogue_de(familles_de()),
                    self.beat() % 2 == 1,
                    vues_specs(cat@) == c,
                    verso@ == base@ + "_verso"@,
                    k <= cat@.len(),
                    forall|q: int| 0 <= q < k ==> (#[trigger] c[q]).0 != verso@,
                decreases cat.len() - k,
            {
                assert(c[k as int] == vue_spec(cat@[k as int]));
                if crate::chaines::egales(caracteres(cat[k].nom.as_str()).as_slice(), verso.as_slice()) {
                    assert(c[k as int].0 == base@ + "_verso"@);
                    assert(a_un_verso(base@));
                    return crate::chaines::chaine(verso.as_slice());
                }
                k = k + 1;
            }
        }
        base.to_owned()
    }

    /// The family that may not win a fourth spread in a row, if any.
    pub fn famille_bloquee(&self) -> (r: Option<String>)
        ensures
            self.run_len() >= REPEAT_LIMIT ==> r == Some(self.run()),
            self.run_len() < REPEAT_LIMIT ==> r is None,
    {
        if self.family_run.1 >= REPEAT_LIMIT {
            Some(self.family_run.0.clone())
        } else {
            None
        }
    }

    /// Account for the spread just composed: its template and how many
    /// photos it took.
    pub fn avancer(&mut self, template: &str, take: usize)
        requires
            old(self).beat() < usize::MAX,
            old(self).since_break() < usize::MAX,
            old(self).run_len() < usize::MAX,
        ensures
            final(self).beat() == old(self).beat() + 1,
            final(self).pace() == old(self).pace(),
            take == 1 ==> final(self).since_break() == 0,
            take != 1 ==> final(self).since_break() == old(self).since_break() + 1,
            final(self).run()@ == famille(template@),
            famille(template@) == old(self).run()@ ==> final(self).run_len() == old(self).run_len() + 1,
            famille(template@) != old(self).run()@ ==> final(self).run_len() == 1,
    {
        let family = famille_de(template);
        let meme = egales(&caracteres(family.as_str()), &caracteres(self.family_run.0.as_str()));
        if meme {
            self.family_run.1 = self.family_run.1 + 1;
        } else {
            self.family_run = (family, 1);
        }
        if take == 1 {
            self.since_break = 0;
        } else {
            self.since_break = self.since_break + 1;
        }
        self.beat = self.beat + 1;
    }
}

/// A breathing page is never owed for long: once a stretch has gone as far
/// as the pace allows, the next spread that may breathe does.
pub proof fn loi_la_respiration_arrive(
    since_break: usize,
    d: Densite,
    i: usize,
    remaining: usize,
    ouvre: bool,
    vedette: bool,
)
    requires
        since_break >= apres_pleine(d),
        remaining != 2,
    ensures
        prise_de(since_break, d, i, remaining, false, ouvre, vedette) != Prise::Grille,
{
}


// --- Placing a chapter ---------------------------------------------------------------

/// The spreads of a chapter laid end to end, photograph after photograph.
pub open spec fn aplatie(p: Seq<Seq<usize>>) -> Seq<usize>
    decreases p.len(),
{
    if p.len() == 0 {
        Seq::empty()
    } else {
        aplatie(p.drop_last()) + p.last()
    }
}

/// The ranks of a chapter of `n` photographs, in the order they came in.
pub open spec fn rangs(n: nat) -> Seq<usize> {
    Seq::new(n, |i: int| i as usize)
}

/// The twin relation a matrix gives: `m[a][b]` or `m[b][a]`, where they
/// exist, says photographs `a` and `b` must never share a spread.
pub open spec fn jumeaux_dans(m: Seq<Vec<bool>>, a: usize, b: usize) -> bool {
    ||| (a < m.len() && b < m[a as int]@.len() && m[a as int]@[b as int])
    ||| (b < m.len() && a < m[b as int]@.len() && m[b as int]@[a as int])
}

/// No two photographs of `s` are twins under the matrix `m`.
pub open spec fn sans_jumeaux_dans(m: Seq<Vec<bool>>, s: Seq<usize>) -> bool {
    forall|c1: int, c2: int|
        0 <= c1 < s.len() && 0 <= c2 < s.len() && c1 != c2 ==> !#[trigger] jumeaux_dans(m, s[c1], s[c2])
}

/// The photographs at offset `debut` and beyond whose offset, below `k`, is
/// not among `choisies`, in the order they stand.
pub open spec fn autres(p: Seq<usize>, debut: int, k: int, choisies: Seq<usize>) -> Seq<usize>
    decreases k,
{
    if k <= 0 {
        Seq::empty()
    } else if choisies.contains((k - 1) as usize) {
        autres(p, debut, k - 1, choisies)
    } else {
        autres(p, debut, k - 1, choisies).push(p[debut + k - 1])
    }
}

/// An order with the photographs at offsets `choisies` from `debut` brought
/// to the front of what remains, in that order, the others after them in
/// the order they stood.
pub open spec fn regroupee(p: Seq<usize>, debut: int, choisies: Seq<usize>) -> Seq<usize> {
    p.subrange(0, debut) + choisies.map_values(|c: usize| p[debut + c]) + autres(
        p,
        debut,
        p.len() - debut,
        choisies,
    )
}

/// One chapter's photographs as the composer places them, known by their
/// rank in the chapter: the order they stand in now, how many are placed,
/// which pairs are twins, and the spreads made of them so far.
pub struct Chapitre {
    n: usize,
    photos: Vec<usize>,
    pos: usize,
    jumelles: Vec<Vec<bool>>,
    planches: Ghost<Seq<Seq<usize>>>,
}

/// A spread as the composer lays it out: its template, what made it, and
/// cell by cell the rank of the photograph it holds.
pub struct PlancheComposee {
    pub template: String,
    pub prise: Prise,
    pub photos: Vec<usize>,
}

impl Chapitre {
    /// How many photographs the chapter holds.
    pub closed spec fn taille(&self) -> nat {
        self.n as nat
    }

    /// The order the photographs stand in: the placed ones first.
    pub closed spec fn ordre(&self) -> Seq<usize> {
        self.photos@
    }

    /// How many photographs are placed.
    pub closed spec fn position(&self) -> nat {
        self.pos as nat
    }

    /// The spreads made so far, each as the ranks it holds.
    pub closed spec fn placees(&self) -> Seq<Seq<usize>> {
        self.planches@
    }

    pub closed spec fn matrice(&self) -> Seq<Vec<bool>> {
        self.jumelles@
    }

    pub open spec fn jumeaux(&self, a: usize, b: usize) -> bool {
        jumeaux_dans(self.matrice(), a, b)
    }

    /// No two photographs of `s` are twins.
    pub open spec fn sans_jumeaux(&self, s: Seq<usize>) -> bool {
        sans_jumeaux_dans(self.matrice(), s)
    }

    /// The photographs still to place, in order.
    pub open spec fn a_placer(&self) -> Seq<usize> {
        self.ordre().subrange(self.position() as int, self.ordre().len() as int)
    }

    /// What every operation keeps: the order is a permutation of the ranks,
    /// the spreads hold exactly the placed photographs, once each, none of
    /// them a pair of twins, and a chapter of two photographs or more never
    /// ends on its first spread.
    pub closed spec fn bien_forme(&self) -> bool {
        let p = self.photos@;
        let f = aplatie(self.planches@);
        &&& self.pos <= p.len()
        &&& p.no_duplicates()
        &&& forall|k: int| 0 <= k < p.len() ==> #[trigger] p[k] < self.n
        &&& forall|x: usize| x < self.n ==> #[trigger] p.contains(x)
        &&& f.no_duplicates()
        &&& forall|x: usize| #[trigger] f.contains(x) <==> p.subrange(0, self.pos as int).contains(x)
        &&& forall|s: int|
            0 <= s < self.planches@.len() ==> self.sans_jumeaux(#[trigger] self.planches@[s])
        &&& (self.planches@.len() == 0 <==> self.pos == 0)
        &&& (self.n >= 2 && self.planches@.len() == 1 ==> self.pos < p.len())
    }

    /// A chapter of `n` photographs in the order they came in, none placed,
    /// with the twin relation `jumelles` gives.
    pub fn new(n: usize, jumelles: Vec<Vec<bool>>) -> (c: Chapitre)
        ensures
            c.bien_forme(),
            c.taille() == n,
            c.ordre() == rangs(n as nat),
            c.position() == 0,
            c.placees() == Seq::<Seq<usize>>::empty(),
            c.matrice() == jumelles@,
    {
        let mut photos: Vec<usize> = Vec::new();
        let mut i: usize = 0;
        while i < n
            invariant
                i <= n,
                photos@ == rangs(i as nat),
            decreases n - i,
        {
            photos.push(i);
            i = i + 1;
            assert(photos@ =~= rangs(i as nat));
        }
        let c = Chapitre { n, photos, pos: 0, jumelles, planches: Ghost(Seq::empty()) };
        proof {
            assert forall|x: usize| x < n implies #[trigger] c.photos@.contains(x) by {
                assert(c.photos@[x as int] == x);
            }
            assert(c.photos@.subrange(0, 0) =~= Seq::<usize>::empty());
        }
        c
    }

    /// How many photographs remain to place.
    pub fn reste(&self) -> (r: usize)
        requires
            self.bien_forme(),
        ensures
            r == self.ordre().len() - self.position(),
    {
        self.photos.len() - self.pos
    }

    /// The rank of the photograph at offset `k` from the first one still to
    /// place.
    pub fn suivante(&self, k: usize) -> (r: usize)
        requires
            self.bien_forme(),
            self.position() + k < self.ordre().len(),
        ensures
            r == self.ordre()[self.position() + k],
    {
        let l = self.photos.len();
        assert(self.pos + k < l);
        self.photos[self.pos + k]
    }

    /// Whether photographs `a` and `b` must never share a spread.
    pub fn sont_jumeaux(&self, a: usize, b: usize) -> (r: bool)
        ensures
            r == self.jumeaux(a, b),
    {
        let m = &self.jumelles;
        let ab = a < m.len() && b < m[a].len() && m[a][b];
        let ba = b < m.len() && a < m[b].len() && m[b][a];
        ab || ba
    }

    /// The length of the longest run of photographs still to place, from the
    /// first, with no twin pair in it: at least one when any remain.
    pub fn prefixe_sans_jumeaux(&self) -> (t: usize)
        requires
            self.bien_forme(),
        ensures
            t <= self.a_placer().len(),
            self.a_placer().len() >= 1 ==> t >= 1,
            self.sans_jumeaux(self.a_placer().subrange(0, t as int)),
            t < self.a_placer().len() ==> exists|k: int|
                0 <= k < t && #[trigger] self.jumeaux(self.a_placer()[t as int], self.a_placer()[k]),
    {
        let tous = self.photos.len();
        let l = tous - self.pos;
        let ghost w = self.a_placer();
        if l == 0 {
            proof {
                assert(w.subrange(0, 0) =~= Seq::<usize>::empty());
            }
            return 0;
        }
        let mut j: usize = 1;
        while j < l
            invariant
                self.bien_forme(),
                w == self.a_placer(),
                l == w.len(),
                tous == self.photos@.len(),
                l + self.pos == tous,
                1 <= j <= l,
                self.sans_jumeaux(w.subrange(0, j as int)),
            decreases l - j,
        {
            let mut k: usize = 0;
            while k < j
                invariant
                    self.bien_forme(),
                    w == self.a_placer(),
                    l == w.len(),
                    tous == self.photos@.len(),
                    l + self.pos == tous,
                    1 <= j < l,
                    k <= j,
                    self.sans_jumeaux(w.subrange(0, j as int)),
                    forall|q: int| 0 <= q < k ==> !#[trigger] self.jumeaux(w[j as int], w[q]),
                decreases j - k,
            {
                let a = self.photos[self.pos + j];
                let b = self.photos[self.pos + k];
                assert(a == w[j as int] && b == w[k as int]);
                if self.sont_jumeaux(a, b) {
                    assert(self.jumeaux(w[j as int], w[k as int]));
                    return j;
                }
                k = k + 1;
            }
            proof {
                let v = w.subrange(0, j as int + 1);
                assert forall|c1: int, c2: int|
                    0 <= c1 < v.len() && 0 <= c2 < v.len() && c1 != c2 implies !#[trigger] jumeaux_dans(
                    self.matrice(),
                    v[c1],
                    v[c2],
                ) by {
                    let u = w.subrange(0, j as int);
                    if c1 < j && c2 < j {
                        assert(v[c1] == u[c1] && v[c2] == u[c2]);
                    } else if c1 == j {
                        assert(!self.jumeaux(w[j as int], w[c2]));
                    } else {
                        assert(!self.jumeaux(w[j as int], w[c1]));
                    }
                }
            }
            j = j + 1;
        }
        proof {
            assert(w.subrange(0, l as int) =~= w);
        }
        l
    }
}


/// The offset, from `debut`, of the photograph `autres` puts at `i`.
pub open spec fn decalage(p: Seq<usize>, debut: int, k: int, choisies: Seq<usize>, i: int) -> int
    decreases k,
{
    if k <= 0 {
        0
    } else if !choisies.contains((k - 1) as usize) && i == autres(p, debut, k - 1, choisies).len() {
        k - 1
    } else {
        decalage(p, debut, k - 1, choisies, i)
    }
}

/// What `autres` keeps: photographs of the range at offsets not chosen,
/// each of them, and nothing twice when the order holds nothing twice.
proof fn lemme_autres(p: Seq<usize>, debut: int, k: int, choisies: Seq<usize>)
    requires
        0 <= debut,
        0 <= k,
        debut + k <= p.len(),
        p.len() <= usize::MAX,
    ensures
        forall|i: int|
            0 <= i < autres(p, debut, k, choisies).len() ==> {
                let q = #[trigger] decalage(p, debut, k, choisies, i);
                &&& 0 <= q < k
                &&& !choisies.contains(q as usize)
                &&& autres(p, debut, k, choisies)[i] == p[debut + q]
            },
        forall|q: int|
            0 <= q < k && !choisies.contains(q as usize) ==> autres(p, debut, k, choisies).contains(
                #[trigger] p[debut + q],
            ),
        p.no_duplicates() ==> autres(p, debut, k, choisies).no_duplicates(),
    decreases k,
{
    if k > 0 {
        lemme_autres(p, debut, k - 1, choisies);
        let prec = autres(p, debut, k - 1, choisies);
        let cur = autres(p, debut, k, choisies);
        if choisies.contains((k - 1) as usize) {
            assert(cur == prec);
            assert forall|i: int| 0 <= i < cur.len() implies {
                let q = #[trigger] decalage(p, debut, k, choisies, i);
                &&& 0 <= q < k
                &&& !choisies.contains(q as usize)
                &&& cur[i] == p[debut + q]
            } by {
                assert(decalage(p, debut, k, choisies, i) == decalage(p, debut, k - 1, choisies, i));
            }
            assert forall|q: int|
                0 <= q < k && !choisies.contains(q as usize) implies cur.contains(#[trigger] p[debut + q]) by {
                assert(q != k - 1);
            }
        } else {
            let x = p[debut + k - 1];
            assert(cur == prec.push(x));
            assert forall|i: int| 0 <= i < cur.len() implies {
                let q = #[trigger] decalage(p, debut, k, choisies, i);
                &&& 0 <= q < k
                &&& !choisies.contains(q as usize)
                &&& cur[i] == p[debut + q]
            } by {
                if i < prec.len() {
                    assert(decalage(p, debut, k, choisies, i) == decalage(p, debut, k - 1, choisies, i));
                    assert(cur[i] == prec[i]);
                } else {
                    assert(decalage(p, debut, k, choisies, i) == k - 1);
                    assert(cur[i] == p[debut + (k - 1)]);
                }
            }
            assert forall|q: int|
                0 <= q < k && !choisies.contains(q as usize) implies cur.contains(#[trigger] p[debut + q]) by {
                if q == k - 1 {
                    assert(cur[prec.len() as int] == x);
                } else {
                    let y = p[debut + q];
                    assert(prec.contains(y));
                    let i = choose|i: int| 0 <= i < prec.len() && prec[i] == y;
                    assert(cur[i] == y);
                }
            }
            if p.no_duplicates() {
                assert forall|i: int| 0 <= i < prec.len() implies prec[i] != x by {
                    let q = decalage(p, debut, k - 1, choisies, i);
                    assert(debut + q != debut + k - 1);
                }
                assert forall|i: int, j: int| 0 <= i < cur.len() && 0 <= j < cur.len() && i != j implies cur[i]
                    != cur[j] by {
                    if i < prec.len() && j < prec.len() {
                        assert(cur[i] == prec[i] && cur[j] == prec[j]);
                    } else if i < prec.len() {
                        assert(cur[i] == prec[i] && cur[j] == x);
                    } else {
                        assert(cur[j] == prec[j] && cur[i] == x);
                    }
                }
            }
        }
    }
}

/// Regrouping keeps what a chapter's order promises: the placed
/// photographs where they were, every rank once, and something left to
/// place when something was.
proof fn lemme_regroupee(p: Seq<usize>, debut: int, choisies: Seq<usize>, n: usize)
    requires
        0 <= debut <= p.len(),
        p.len() <= usize::MAX,
        p.no_duplicates(),
        forall|k: int| 0 <= k < p.len() ==> #[trigger] p[k] < n,
        forall|x: usize| x < n ==> #[trigger] p.contains(x),
        forall|c: int| 0 <= c < choisies.len() ==> debut + #[trigger] choisies[c] < p.len(),
        choisies.no_duplicates(),
    ensures
        regroupee(p, debut, choisies).subrange(0, debut) == p.subrange(0, debut),
        regroupee(p, debut, choisies).no_duplicates(),
        forall|k: int|
            0 <= k < regroupee(p, debut, choisies).len() ==> #[trigger] regroupee(p, debut, choisies)[k] < n,
        forall|x: usize| x < n ==> #[trigger] regroupee(p, debut, choisies).contains(x),
        debut < p.len() ==> debut < regroupee(p, debut, choisies).len(),
{
    let a = p.subrange(0, debut);
    let b = choisies.map_values(|c: usize| p[debut + c]);
    let k = p.len() - debut;
    let o = autres(p, debut, k, choisies);
    let r = regroupee(p, debut, choisies);
    lemme_autres(p, debut, k, choisies);
    assert(r == a + b + o);
    assert(r.subrange(0, debut) =~= a);
    assert forall|i: int, j: int| 0 <= i < b.len() && 0 <= j < b.len() && i != j implies b[i] != b[j] by {
        assert(debut + choisies[i] != debut + choisies[j]);
    }
    assert forall|i: int, j: int| 0 <= i < a.len() && 0 <= j < b.len() implies a[i] != b[j] by {
        assert(a[i] == p[i]);
        assert(i != debut + choisies[j]);
    }
    vstd::seq_lib::lemma_no_dup_in_concat(a, b);
    let ab = a + b;
    assert forall|i: int, j: int| 0 <= i < ab.len() && 0 <= j < o.len() implies ab[i] != o[j] by {
        let q = decalage(p, debut, k, choisies, j);
        if i < a.len() {
            assert(ab[i] == p[i]);
            assert(i != debut + q);
        } else {
            let c = i - a.len();
            assert(ab[i] == b[c]);
            assert(choisies[c] != q as usize);
            assert(debut + choisies[c] != debut + q);
        }
    }
    vstd::seq_lib::lemma_no_dup_in_concat(ab, o);
    assert forall|i: int| 0 <= i < r.len() implies #[trigger] r[i] < n by {
        if i < a.len() {
            assert(r[i] == p[i]);
        } else if i < ab.len() {
            assert(r[i] == p[debut + choisies[i - a.len()]]);
        } else {
            let j = i - ab.len();
            assert(r[i] == o[j]);
            let q = decalage(p, debut, k, choisies, j);
        }
    }
    assert forall|x: usize| x < n implies #[trigger] r.contains(x) by {
        assert(p.contains(x));
        let i = choose|i: int| 0 <= i < p.len() && p[i] == x;
        if i < debut {
            assert(r[i] == x);
        } else if choisies.contains((i - debut) as usize) {
            let c = choose|c: int| 0 <= c < choisies.len() && choisies[c] == (i - debut) as usize;
            assert(b[c] == p[debut + choisies[c]]);
            assert(debut + choisies[c] == i);
            assert(r[a.len() + c] == b[c]);
        } else {
            assert(o.contains(p[debut + (i - debut)]));
            let j = choose|j: int| 0 <= j < o.len() && o[j] == x;
            assert(r[ab.len() + j] == x);
        }
    }
    if debut < p.len() {
        let x = p[debut];
        assert(x < n);
        assert(r.contains(x));
        let j = choose|j: int| 0 <= j < r.len() && r[j] == x;
        if j < debut {
            assert(r[j] == p[j]);
        }
    }
}


fn contient_rang(v: &[usize], x: usize) -> (b: bool)
    ensures
        b == v@.contains(x),
{
    let mut i: usize = 0;
    while i < v.len()
        invariant
            i <= v@.len(),
            forall|q: int| 0 <= q < i ==> v@[q] != x,
        decreases v.len() - i,
    {
        if v[i] == x {
            return true;
        }
        i = i + 1;
    }
    false
}

impl Chapitre {
    /// Bring the photographs at these offsets, counted from the first one
    /// still to place, to the front of what remains, in this order; the
    /// others follow in the order they stood. This is how a chapter's
    /// strongest photograph comes to open it, how a breathing page pulls
    /// the best photograph nearby, and how a grid gathers photographs of
    /// one aspect.
    pub fn regrouper(&mut self, choisies: &[usize])
        requires
            old(self).bien_forme(),
            forall|c: int|
                0 <= c < choisies@.len() ==> old(self).position() + #[trigger] choisies@[c] < old(self).ordre().len(),
            choisies@.no_duplicates(),
        ensures
            final(self).bien_forme(),
            final(self).ordre() == regroupee(old(self).ordre(), old(self).position() as int, choisies@),
            final(self).a_placer().subrange(0, choisies@.len() as int) == choisies_de(old(self).a_placer(), choisies@),
            final(self).position() == old(self).position(),
            final(self).placees() == old(self).placees(),
            final(self).taille() == old(self).taille(),
            final(self).matrice() == old(self).matrice(),
    {
        let tous = self.photos.len();
        let pos = self.pos;
        let ghost p = self.photos@;
        let ghost ch = choisies@;
        let mut nouvelles: Vec<usize> = Vec::new();
        let mut i: usize = 0;
        while i < pos
            invariant
                p == self.photos@,
                tous == p.len(),
                pos <= tous,
                i <= pos,
                nouvelles@ == p.subrange(0, i as int),
            decreases pos - i,
        {
            nouvelles.push(self.photos[i]);
            i = i + 1;
            assert(nouvelles@ =~= p.subrange(0, i as int));
        }
        let mut c: usize = 0;
        while c < choisies.len()
            invariant
                p == self.photos@,
                ch == choisies@,
                tous == p.len(),
                pos <= tous,
                c <= ch.len(),
                forall|q: int| 0 <= q < ch.len() ==> pos + #[trigger] ch[q] < tous,
                nouvelles@ == p.subrange(0, pos as int) + ch.subrange(0, c as int).map_values(
                    |d: usize| p[pos + d],
                ),
            decreases choisies.len() - c,
        {
            nouvelles.push(self.photos[pos + choisies[c]]);
            c = c + 1;
            assert(ch.subrange(0, c as int).map_values(|d: usize| p[pos + d]) =~= ch.subrange(
                0,
                c as int - 1,
            ).map_values(|d: usize| p[pos + d]).push(p[pos + ch[c as int - 1]]));
        }
        assert(ch.subrange(0, ch.len() as int) =~= ch);
        let mut k: usize = 0;
        while k < tous - pos
            invariant
                p == self.photos@,
                ch == choisies@,
                tous == p.len(),
                pos <= tous,
                k <= tous - pos,
                nouvelles@ == p.subrange(0, pos as int) + ch.map_values(|d: usize| p[pos + d]) + autres(
                    p,
                    pos as int,
                    k as int,
                    ch,
                ),
            decreases tous - pos - k,
        {
            if !contient_rang(choisies, k) {
                nouvelles.push(self.photos[pos + k]);
            }
            k = k + 1;
        }
        proof {
            lemme_regroupee(p, pos as int, ch, self.n);
            assert(nouvelles@ == regroupee(p, pos as int, ch));
        }
        self.photos = nouvelles;
        proof {
            let r = self.photos@;
            let w = p.subrange(pos as int, p.len() as int);
            assert(r.subrange(pos as int, r.len() as int).subrange(0, ch.len() as int) =~= choisies_de(w, ch));
            assert(old(self).bien_forme());
            assert(self.planches@ == old(self).planches@);
            assert(self.matrice() == old(self).matrice());
            assert(r.subrange(0, pos as int) == p.subrange(0, pos as int));
            assert(self.pos <= r.len());
            assert(r.no_duplicates());
            assert(forall|k: int| 0 <= k < r.len() ==> #[trigger] r[k] < self.n);
            assert(forall|x: usize| x < self.n ==> #[trigger] r.contains(x));
            assert(self.n >= 2 && self.planches@.len() == 1 ==> self.pos < r.len());
            assert forall|t: int| 0 <= t < self.planches@.len() implies self.sans_jumeaux(
                #[trigger] self.planches@[t],
            ) by {
                assert(old(self).sans_jumeaux(old(self).planches@[t]));
            }
            assert forall|x: usize| #[trigger] aplatie(self.planches@).contains(x) <==> r.subrange(
                0,
                self.pos as int,
            ).contains(x) by {
                assert(old(self).bien_forme());
            }
        }
    }
}

impl Composer {
    /// Lay out the next spread of a chapter: the next `take` photographs,
    /// cell `c` holding the one at offset `ordre[c]`, under template
    /// `gabarit`. The chapter moves past them and the composer accounts for
    /// the spread.
    pub fn placer(
        &mut self,
        ch: &mut Chapitre,
        prise: Prise,
        take: usize,
        gabarit: &str,
        ordre: &[usize],
    ) -> (s: PlancheComposee)
        requires
            old(ch).bien_forme(),
            1 <= take,
            old(ch).position() + take <= old(ch).ordre().len(),
            ordre@.len() == take,
            forall|c: int| 0 <= c < take ==> #[trigger] ordre@[c] < take,
            ordre@.no_duplicates(),
            old(ch).sans_jumeaux(old(ch).a_placer().subrange(0, take as int)),
            old(ch).position() == 0 && old(ch).ordre().len() >= 2 ==> take < old(ch).ordre().len(),
            old(self).beat() < usize::MAX,
            old(self).since_break() < usize::MAX,
            old(self).run_len() < usize::MAX,
        ensures
            final(ch).bien_forme(),
            s.template@ == gabarit@,
            s.prise == prise,
            s.photos@.len() == take,
            forall|c: int|
                0 <= c < take ==> s.photos@[c] == old(ch).ordre()[old(ch).position() + #[trigger] ordre@[c]],
            final(ch).ordre() == old(ch).ordre(),
            final(ch).position() == old(ch).position() + take,
            final(ch).placees() == old(ch).placees().push(s.photos@),
            final(ch).taille() == old(ch).taille(),
            final(ch).matrice() == old(ch).matrice(),
            final(self).beat() == old(self).beat() + 1,
            final(self).pace() == old(self).pace(),
            take == 1 ==> final(self).since_break() == 0,
            take != 1 ==> final(self).since_break() == old(self).since_break() + 1,
            final(self).run()@ == famille(gabarit@),
            famille(gabarit@) == old(self).run()@ ==> final(self).run_len() == old(self).run_len() + 1,
            famille(gabarit@) != old(self).run()@ ==> final(self).run_len() == 1,
    {
        let tous = ch.photos.len();
        let pos = ch.pos;
        let ghost p = ch.photos@;
        let ghost w = p.subrange(pos as int, pos + take);
        let mut photos: Vec<usize> = Vec::new();
        let mut c: usize = 0;
        while c < take
            invariant
                p == ch.photos@,
                tous == p.len(),
                pos + take <= tous,
                ordre@.len() == take,
                forall|q: int| 0 <= q < take ==> #[trigger] ordre@[q] < take,
                c <= take,
                photos@.len() == c,
                forall|q: int| 0 <= q < c ==> photos@[q] == p[pos + #[trigger] ordre@[q]],
            decreases take - c,
        {
            photos.push(ch.photos[pos + ordre[c]]);
            c = c + 1;
        }
        let ghost avant = ch.planches@;
        proof {
            let a = old(ch).a_placer().subrange(0, take as int);
            assert(a =~= w);
            assert forall|c1: int, c2: int|
                0 <= c1 < take && 0 <= c2 < take && c1 != c2 implies !#[trigger] jumeaux_dans(
                ch.jumelles@,
                p.subrange(pos as int, pos + take)[c1],
                p.subrange(pos as int, pos + take)[c2],
            ) by {
                assert(!old(ch).jumeaux(a[c1], a[c2]));
            }
            lemme_placer(ch.photos@, ch.n, pos as int, take as int, ordre@, photos@, ch.planches@, ch.jumelles@);
            ch.planches@ = ch.planches@.push(photos@);
        }
        ch.pos = pos + take;
        proof {
            let q = ch.planches@;
            assert(ch.matrice() == old(ch).matrice());
            assert(old(ch).bien_forme());
            assert forall|t: int| 0 <= t < q.len() implies ch.sans_jumeaux(#[trigger] q[t]) by {
                if t < avant.len() {
                    assert(q[t] == avant[t]);
                    assert(old(ch).sans_jumeaux(avant[t]));
                } else {
                    assert(q[t] == photos@);
                    assert forall|c1: int, c2: int|
                        0 <= c1 < q[t].len() && 0 <= c2 < q[t].len() && c1 != c2 implies !#[trigger] ch.jumeaux(
                        q[t][c1],
                        q[t][c2],
                    ) by {
                        assert(!jumeaux_dans(ch.jumelles@, photos@[c1], photos@[c2]));
                    }
                }
            }
            if ch.n >= 2 {
                assert(p.contains(0usize) && p.contains(1usize));
                let a = choose|k: int| 0 <= k < p.len() && p[k] == 0usize;
                let b = choose|k: int| 0 <= k < p.len() && p[k] == 1usize;
                assert(p.len() >= 2);
            }
        }
        self.avancer(gabarit, take);
        PlancheComposee { template: gabarit.to_owned(), prise, photos }
    }
}

/// Placing a spread keeps the chapter well formed.
proof fn lemme_placer(
    p: Seq<usize>,
    n: usize,
    pos: int,
    take: int,
    ordre: Seq<usize>,
    s: Seq<usize>,
    planches: Seq<Seq<usize>>,
    m: Seq<Vec<bool>>,
)
    requires
        0 <= pos,
        1 <= take,
        pos + take <= p.len(),
        p.len() <= usize::MAX,
        p.no_duplicates(),
        forall|k: int| 0 <= k < p.len() ==> #[trigger] p[k] < n,
        forall|x: usize| x < n ==> #[trigger] p.contains(x),
        aplatie(planches).no_duplicates(),
        forall|x: usize| #[trigger] aplatie(planches).contains(x) <==> p.subrange(0, pos).contains(x),
        ordre.len() == take,
        forall|c: int| 0 <= c < take ==> #[trigger] ordre[c] < take,
        ordre.no_duplicates(),
        s.len() == take,
        forall|c: int| 0 <= c < take ==> s[c] == p[pos + #[trigger] ordre[c]],
        forall|c1: int, c2: int|
            0 <= c1 < take && 0 <= c2 < take && c1 != c2 ==> !#[trigger] jumeaux_dans(
                m,
                p.subrange(pos, pos + take)[c1],
                p.subrange(pos, pos + take)[c2],
            ),
    ensures
        aplatie(planches.push(s)).no_duplicates(),
        forall|x: usize| #[trigger] aplatie(planches.push(s)).contains(x) <==> p.subrange(0, pos + take).contains(x),
        forall|c1: int, c2: int|
            0 <= c1 < s.len() && 0 <= c2 < s.len() && c1 != c2 ==> !#[trigger] jumeaux_dans(m, s[c1], s[c2]),
{
    let f = aplatie(planches);
    let w = p.subrange(pos, pos + take);
    assert(planches.push(s).drop_last() =~= planches);
    assert(aplatie(planches.push(s)) == f + s);
    lemme_permutation_couvre(ordre, take as usize);
    assert forall|i: int, j: int| 0 <= i < s.len() && 0 <= j < s.len() && i != j implies s[i] != s[j] by {
        assert(pos + ordre[i] != pos + ordre[j]);
    }
    assert forall|i: int, j: int| 0 <= i < f.len() && 0 <= j < s.len() implies f[i] != s[j] by {
        assert(f.contains(f[i]));
        assert(p.subrange(0, pos).contains(f[i]));
        let k = choose|k: int| 0 <= k < pos && p.subrange(0, pos)[k] == f[i];
        assert(p[k] == f[i]);
        assert(k != pos + ordre[j]);
    }
    vstd::seq_lib::lemma_no_dup_in_concat(f, s);
    assert forall|x: usize| #[trigger] (f + s).contains(x) <==> p.subrange(0, pos + take).contains(x) by {
        let q = p.subrange(0, pos + take);
        if (f + s).contains(x) {
            let i = choose|i: int| 0 <= i < (f + s).len() && (f + s)[i] == x;
            if i < f.len() {
                assert(f.contains(x));
                let k = choose|k: int| 0 <= k < pos && p.subrange(0, pos)[k] == x;
                assert(q[k] == x);
            } else {
                let c = i - f.len();
                assert(s[c] == x);
                assert(q[pos + ordre[c]] == x);
            }
        }
        if q.contains(x) {
            let k = choose|k: int| 0 <= k < q.len() && q[k] == x;
            if k < pos {
                assert(p.subrange(0, pos)[k] == x);
                assert(f.contains(x));
                let i = choose|i: int| 0 <= i < f.len() && f[i] == x;
                assert((f + s)[i] == x);
            } else {
                assert(ordre.contains((k - pos) as usize));
                let c = choose|c: int| 0 <= c < ordre.len() && ordre[c] == (k - pos) as usize;
                assert(s[c] == x);
                assert((f + s)[f.len() + c] == x);
            }
        }
    }
    assert forall|c1: int, c2: int|
        0 <= c1 < s.len() && 0 <= c2 < s.len() && c1 != c2 implies !#[trigger] jumeaux_dans(m, s[c1], s[c2]) by {
        let d1 = ordre[c1] as int;
        let d2 = ordre[c2] as int;
        assert(w[d1] == s[c1] && w[d2] == s[c2]);
        assert(!jumeaux_dans(m, w[d1], w[d2]));
    }
}

/// A sequence of `m` distinct offsets below `m` holds every one of them.
proof fn lemme_permutation_couvre(ordre: Seq<usize>, m: usize)
    requires
        ordre.len() == m,
        ordre.no_duplicates(),
        forall|c: int| 0 <= c < m ==> #[trigger] ordre[c] < m,
    ensures
        forall|k: usize| k < m ==> #[trigger] ordre.contains(k),
{
    let r = Set::new(|i: usize| 0 <= i < m);
    vstd::set_lib::range_set_properties::<usize>(0, m);
    assert(r == <usize as vstd::set_lib::FiniteRange>::range_set(0, m));
    ordre.unique_seq_to_set();
    vstd::seq_lib::seq_to_set_is_finite(ordre);
    assert(ordre.to_set().subset_of(r)) by {
        assert forall|x: usize| ordre.to_set().contains(x) implies r.contains(x) by {
            let c = choose|c: int| 0 <= c < ordre.len() && ordre[c] == x;
        }
    }
    vstd::set_lib::lemma_subset_equality(ordre.to_set(), r);
    assert forall|k: usize| k < m implies #[trigger] ordre.contains(k) by {
        assert(r.contains(k));
        assert(ordre.to_set().contains(k));
    }
}

/// Once every photograph of a chapter is placed, each rank of the chapter is
/// on exactly one spread, no spread holds a pair of twins, and a chapter of
/// two photographs or more has filled two spreads at least.
pub proof fn loi_chaque_photo_trouve_une_seule_planche(ch: &Chapitre)
    requires
        ch.bien_forme(),
        ch.position() == ch.ordre().len(),
    ensures
        aplatie(ch.placees()).to_multiset() == rangs(ch.taille()).to_multiset(),
        forall|s: int| 0 <= s < ch.placees().len() ==> ch.sans_jumeaux(#[trigger] ch.placees()[s]),
        ch.taille() >= 2 ==> ch.placees().len() >= 2,
{
    let f = aplatie(ch.placees());
    let p = ch.ordre();
    let r = rangs(ch.taille());
    let n = ch.n;
    assert(p.subrange(0, ch.pos as int) =~= p);
    assert forall|x: usize| #[trigger] f.contains(x) <==> x < n by {
        if x < n {
            assert(p.contains(x));
        }
        if f.contains(x) {
            let k = choose|k: int| 0 <= k < p.len() && p[k] == x;
            assert(p[k] < n);
        }
    }
    assert forall|x: usize| #[trigger] r.contains(x) <==> x < n by {
        if x < n {
            assert(r[x as int] == x);
        }
    }
    assert(r.no_duplicates());
    f.lemma_multiset_has_no_duplicates();
    r.lemma_multiset_has_no_duplicates();
    assert forall|x: usize| f.to_multiset().count(x) == r.to_multiset().count(x) by {
        vstd::seq_lib::to_multiset_contains(f, x);
        vstd::seq_lib::to_multiset_contains(r, x);
    }
    assert(f.to_multiset() =~= r.to_multiset());
    if n >= 2 {
        assert(p.contains(0usize) && p.contains(1usize));
        let a = choose|k: int| 0 <= k < p.len() && p[k] == 0usize;
        let b = choose|k: int| 0 <= k < p.len() && p[k] == 1usize;
        assert(p.len() >= 2);
    }
}


/// How far ahead a grid may gather photographs of the same aspect class, so
/// extreme formats still find a partner.
pub const GROUP_WINDOW: usize = 8;

/// The photographs at offsets `choix` among those still to place.
pub open spec fn choisies_de(w: Seq<usize>, choix: Seq<usize>) -> Seq<usize> {
    choix.map_values(|c: usize| w[c as int])
}

impl Chapitre {
    /// The photographs a grid gathers from the window ahead, as offsets from
    /// the first one still to place, in order: those of the first one's
    /// aspect class (`classes[k]` is the class of the photograph at offset
    /// `k`), none a twin of one gathered before it, at most `hint` of them.
    /// The twin of a kept photograph drifts to a later spread instead of
    /// shrinking this one.
    pub fn choisir_grille(&self, classes: &[u8], hint: usize) -> (choix: Vec<usize>)
        requires
            self.bien_forme(),
            classes@.len() == self.a_placer().len(),
            1 <= hint,
        ensures
            ({
                let w = self.a_placer();
                let fin = if w.len() < (if hint > GROUP_WINDOW { hint as int } else { GROUP_WINDOW as int }) {
                    w.len() as int
                } else if hint > GROUP_WINDOW {
                    hint as int
                } else {
                    GROUP_WINDOW as int
                };
                &&& choix@.len() <= hint
                &&& forall|a: int, b: int| 0 <= a < b < choix@.len() ==> #[trigger] choix@[a] < #[trigger] choix@[b]
                &&& forall|c: int| 0 <= c < choix@.len() ==> #[trigger] choix@[c] < fin
                &&& forall|c: int| 0 <= c < choix@.len() ==> classes@[#[trigger] choix@[c] as int] == classes@[0]
                &&& w.len() >= 1 ==> choix@.len() >= 1 && choix@[0] == 0
                &&& self.sans_jumeaux(choisies_de(w, choix@))
                &&& forall|q: int|
                    #![trigger classes@[q]]
                    0 <= q < fin && !choix@.contains(q as usize) ==> classes@[q] != classes@[0] || (choix@.len() == hint
                        && choix@[hint - 1] < q) || exists|c: int|
                        0 <= c < choix@.len() && choix@[c] < q && #[trigger] self.jumeaux(
                            w[q],
                            w[#[trigger] choix@[c] as int],
                        )
            }),
    {
        let tous = self.photos.len();
        let reste = tous - self.pos;
        let ghost w = self.a_placer();
        let large = if hint > GROUP_WINDOW { hint } else { GROUP_WINDOW };
        let fin = if reste < large { reste } else { large };
        let mut choix: Vec<usize> = Vec::new();
        let mut k: usize = 0;
        while k < fin
            invariant
                self.bien_forme(),
                w == self.a_placer(),
                tous == self.photos@.len(),
                reste == w.len(),
                reste + self.pos == tous,
                classes@.len() == reste,
                fin <= reste,
                fin == (if reste < large { reste } else { large }),
                large == (if hint > GROUP_WINDOW { hint } else { GROUP_WINDOW }),
                1 <= hint,
                k <= fin,
                choix@.len() <= hint,
                forall|a: int, b: int| 0 <= a < b < choix@.len() ==> #[trigger] choix@[a] < #[trigger] choix@[b],
                forall|c: int| 0 <= c < choix@.len() ==> #[trigger] choix@[c] < k,
                forall|c: int| 0 <= c < choix@.len() ==> classes@[#[trigger] choix@[c] as int] == classes@[0],
                k >= 1 ==> choix@.len() >= 1 && choix@[0] == 0,
                self.sans_jumeaux(choisies_de(w, choix@)),
                forall|q: int|
                    #![trigger classes@[q]]
                    0 <= q < k && !choix@.contains(q as usize) ==> classes@[q] != classes@[0] || (choix@.len() == hint
                        && choix@[hint - 1] < q) || exists|c: int|
                        0 <= c < choix@.len() && choix@[c] < q && #[trigger] self.jumeaux(
                            w[q],
                            w[#[trigger] choix@[c] as int],
                        ),
            decreases fin - k,
        {
            let ghost avant = choix@;
            if choix.len() < hint && classes[k] == classes[0] {
                let pk = self.photos[self.pos + k];
                assert(pk == w[k as int]);
                let mut jum = false;
                let mut c: usize = 0;
                while c < choix.len()
                    invariant
                        self.bien_forme(),
                        w == self.a_placer(),
                        tous == self.photos@.len(),
                        reste + self.pos == tous,
                        pk == w[k as int],
                        k < fin <= reste,
                        choix@ == avant,
                        forall|q: int| 0 <= q < choix@.len() ==> #[trigger] choix@[q] < k,
                        c <= choix@.len(),
                        jum == exists|q: int| 0 <= q < c && #[trigger] self.jumeaux(pk, w[#[trigger] choix@[q] as int]),
                    decreases choix.len() - c,
                {
                    let d = choix[c];
                    let pd = self.photos[self.pos + d];
                    assert(pd == w[d as int]);
                    if self.sont_jumeaux(pk, pd) {
                        jum = true;
                        assert(self.jumeaux(pk, w[choix@[c as int] as int]));
                    }
                    c = c + 1;
                }
                if !jum {
                    choix.push(k);
                    proof {
                        let vs = choisies_de(w, choix@);
                        let va = choisies_de(w, avant);
                        assert(vs =~= va.push(w[k as int]));
                        assert forall|c1: int, c2: int|
                            0 <= c1 < vs.len() && 0 <= c2 < vs.len() && c1 != c2 implies !#[trigger] jumeaux_dans(
                            self.matrice(),
                            vs[c1],
                            vs[c2],
                        ) by {
                            if c1 < va.len() && c2 < va.len() {
                                assert(vs[c1] == va[c1] && vs[c2] == va[c2]);
                            } else if c1 < va.len() {
                                assert(vs[c1] == w[avant[c1] as int]);
                                assert(!self.jumeaux(pk, w[avant[c1] as int]));
                            } else {
                                assert(vs[c2] == w[avant[c2] as int]);
                                assert(!self.jumeaux(pk, w[avant[c2] as int]));
                            }
                        }
                        assert forall|q: int|
                            #![trigger classes@[q]]
                            0 <= q < k + 1 && !choix@.contains(q as usize) implies classes@[q] != classes@[0] || (
                            choix@.len() == hint && choix@[hint - 1] < q) || exists|c: int|
                            0 <= c < choix@.len() && choix@[c] < q && #[trigger] self.jumeaux(
                                w[q],
                                w[#[trigger] choix@[c] as int],
                            ) by {
                            if q == k {
                                assert(choix@[avant.len() as int] == k);
                                assert(choix@.contains(q as usize));
                            }
                            assert(!avant.contains(q as usize)) by {
                                if avant.contains(q as usize) {
                                    let c = choose|c: int| 0 <= c < avant.len() && avant[c] == q as usize;
                                    assert(choix@[c] == q as usize);
                                }
                            }
                            if !(classes@[q] != classes@[0]) {
                                if avant.len() == hint && avant[hint - 1] < q {
                                    assert(false);
                                }
                                let c = choose|c: int|
                                    0 <= c < avant.len() && avant[c] < q && #[trigger] self.jumeaux(
                                        w[q],
                                        w[#[trigger] avant[c] as int],
                                    );
                                assert(choix@[c] == avant[c]);
                            }
                        }
                    }
                } else {
                    proof {
                        let q0 = choose|q: int| 0 <= q < choix@.len() && #[trigger] self.jumeaux(pk, w[#[trigger] choix@[q] as int]);
                        assert(self.jumeaux(w[k as int], w[choix@[q0] as int]));
                    }
                }
            } else {
                proof {
                    if choix@.len() >= hint {
                        if choix@.len() >= 1 {
                            assert(choix@[hint - 1] < k);
                        }
                    }
                }
            }
            k = k + 1;
        }
        proof {
            if w.len() >= 1 {
                assert(fin >= 1);
            }
        }
        choix
    }
}


/// The first photograph from `k` on that is among the chapter's strongest
/// and, when `page` asks for it, can carry a page on its own.
pub open spec fn premiere_forte(fortes: Seq<bool>, pleines: Seq<bool>, page: bool, k: int) -> Option<int>
    decreases fortes.len() - k,
{
    if k < 0 || k >= fortes.len() {
        None
    } else if fortes[k] && (!page || pleines[k]) {
        Some(k)
    } else {
        premiere_forte(fortes, pleines, page, k + 1)
    }
}

/// The photograph a chapter opens on, when it has enough photographs to
/// open on one: the earliest of its strongest that can carry a page, else
/// the earliest of its strongest. `fortes[j]` says photograph `j` scores in
/// the chapter's top quarter, `pleines[j]` that it prints cleanly on a page
/// of its own. Everything else keeps its order once it is brought forward.
pub fn ouvreuse(fortes: &[bool], pleines: &[bool]) -> (r: Option<usize>)
    requires
        fortes@.len() == pleines@.len(),
    ensures
        fortes@.len() < crate::audit::OPENING_MIN_PHOTOS ==> r is None,
        fortes@.len() >= crate::audit::OPENING_MIN_PHOTOS ==> match premiere_forte(fortes@, pleines@, true, 0) {
            Some(j) => r == Some(j as usize),
            None => match premiere_forte(fortes@, pleines@, false, 0) {
                Some(j) => r == Some(j as usize),
                None => r is None,
            },
        },
{
    let n = fortes.len();
    if n < crate::audit::OPENING_MIN_PHOTOS {
        return None;
    }
    let mut j: usize = 0;
    while j < n
        invariant
            n == fortes@.len() == pleines@.len(),
            n >= crate::audit::OPENING_MIN_PHOTOS,
            j <= n,
            premiere_forte(fortes@, pleines@, true, 0) == premiere_forte(fortes@, pleines@, true, j as int),
        decreases n - j,
    {
        if fortes[j] && pleines[j] {
            return Some(j);
        }
        j = j + 1;
    }
    let mut j: usize = 0;
    while j < n
        invariant
            n == fortes@.len() == pleines@.len(),
            n >= crate::audit::OPENING_MIN_PHOTOS,
            j <= n,
            premiere_forte(fortes@, pleines@, true, 0) is None,
            premiere_forte(fortes@, pleines@, false, 0) == premiere_forte(fortes@, pleines@, false, j as int),
        decreases n - j,
    {
        if fortes[j] {
            return Some(j);
        }
        j = j + 1;
    }
    None
}


/// The decision for the next spread, as the composer's rules say it: a
/// chapter of at least four photographs whose first can carry a page opens
/// on it; a page of its own is never taken right after another, nor when
/// exactly two photographs remain (they go together); a standout takes one
/// only once the stretch since the last breathing page has reached the
/// pace's spacing; a breathing page is owed once that stretch reaches the
/// pace's limit; everything else is a grid.
pub proof fn loi_une_page_seule_ne_laisse_pas_une_photo_seule(
    since_break: usize,
    d: Densite,
    i: usize,
    remaining: usize,
    last_was_feature: bool,
    ouvre: bool,
    vedette: bool,
)
    ensures
        ({
            let p = prise_de(since_break, d, i, remaining, last_was_feature, ouvre, vedette);
            let espace: usize = match d {
                Densite::Aeree => 2,
                Densite::Equilibree => 4,
                Densite::Dense => 5,
            };
            let limite: usize = match d {
                Densite::Aeree => 3,
                Densite::Equilibree => 5,
                Densite::Dense => 6,
            };
            &&& (i == 0 && remaining >= 4 && ouvre) <==> p == Prise::Ouverture
            &&& remaining == 2 && !(i == 0 && ouvre && remaining >= 4) ==> p == Prise::Grille
            &&& last_was_feature && p != Prise::Ouverture ==> p == Prise::Grille
            &&& p == Prise::Vedette ==> vedette && !last_was_feature && remaining != 2 && since_break >= espace
            &&& p == Prise::Respiration ==> !last_was_feature && remaining != 2 && since_break >= limite
            &&& p == Prise::Grille ==> !(i == 0 && remaining >= 4 && ouvre) && (last_was_feature || remaining == 2
                || since_break < limite)
            &&& p != Prise::Ouverture && !last_was_feature && remaining != 2 && since_break >= espace && vedette
                ==> p == Prise::Vedette
        }),
{
}

} // verus!
