//! Cutting a composed book into the single pages a binder reads one at a
//! time. The book is composed in spreads; some suppliers bind one PDF page
//! as one page of the book, and the imposition says which half of which
//! spread each page is. Moving the objects onto their page is geometry in
//! millimetres, done by the renderer.

use vstd::prelude::*;

verus! {

/// Which page of a spread. There is no third value: the fold is hard.
#[derive(Debug, Clone, Copy, PartialEq, Eq, Structural)]
pub enum Cote {
    Gauche,
    Droite,
}

/// One page of the interior, in the order the file carries them.
#[derive(Debug, Clone, Copy, PartialEq, Eq, Structural)]
pub enum Page {
    /// A page of spread `planche` (0-based).
    Planche(usize, Cote),
    /// The blank verso that closes the block.
    Blanche,
}

/// The faces spread `planche` contributes: the first spread gives its recto
/// alone (its left half faces the inside of the cover), every other both.
pub open spec fn faces_de(planche: nat) -> Seq<Cote> {
    if planche == 0 {
        seq![Cote::Droite]
    } else {
        seq![Cote::Gauche, Cote::Droite]
    }
}

/// The interior of a book of `n` spreads, page by page: page 1 is the first
/// spread's recto, pages 2k and 2k+1 are spread k's two halves, and a blank
/// verso closes the block. A book without spreads has no page.
pub open spec fn ordre_de(n: nat) -> Seq<Page> {
    if n == 0 {
        Seq::empty()
    } else {
        Seq::new((2 * n) as nat, |p: int|
            if p == 0 {
                Page::Planche(0, Cote::Droite)
            } else if p == 2 * n - 1 {
                Page::Blanche
            } else if p % 2 == 1 {
                Page::Planche(((p + 1) / 2) as usize, Cote::Gauche)
            } else {
                Page::Planche((p / 2) as usize, Cote::Droite)
            })
    }
}

/// The faces spread `planche` contributes to the interior, in order.
pub fn faces(planche: usize) -> (r: &'static [Cote])
    ensures
        r@ == faces_de(planche as nat),
{
    if planche == 0 {
        let r: &'static [Cote] = &[Cote::Droite];
        assert(r@ =~= faces_de(planche as nat));
        r
    } else {
        let r: &'static [Cote] = &[Cote::Gauche, Cote::Droite];
        assert(r@ =~= faces_de(planche as nat));
        r
    }
}

/// The whole interior, page by page, built from [`faces`].
pub fn ordre(planches: usize) -> (v: Vec<Page>)
    requires
        planches <= usize::MAX / 2,
    ensures
        v@ == ordre_de(planches as nat),
{
    let mut v: Vec<Page> = Vec::new();
    if planches == 0 {
        assert(v@ =~= ordre_de(0));
        return v;
    }
    let mut planche: usize = 0;
    while planche < planches
        invariant
            0 < planches <= usize::MAX / 2,
            planche <= planches,
            v@.len() == if planche == 0 { 0 } else { 2 * planche - 1 },
            forall|p: int| 0 <= p < v@.len() ==> #[trigger] v@[p] == ordre_de(planches as nat)[p],
        decreases planches - planche,
    {
        let f = faces(planche);
        let mut k: usize = 0;
        let ghost debut = v@.len();
        while k < f.len()
            invariant
                0 < planches <= usize::MAX / 2,
                planche < planches,
                f@ == faces_de(planche as nat),
                k <= f@.len(),
                debut == if planche == 0 { 0 } else { 2 * planche - 1 },
                v@.len() == debut + k,
                forall|p: int| 0 <= p < v@.len() ==> #[trigger] v@[p] == ordre_de(planches as nat)[p],
            decreases f.len() - k,
        {
            v.push(Page::Planche(planche, f[k]));
            k = k + 1;
        }
        planche = planche + 1;
    }
    v.push(Page::Blanche);
    assert(v@ =~= ordre_de(planches as nat));
    v
}

/// The imposition keeps the book a book: `2n` pages, the half-title on
/// page 1 and the colophon on the last odd page, both rectos; the two
/// halves of every other spread facing each other in order; and nothing of
/// the first spread's left half, which nothing prints.
pub proof fn loi_imposition(n: nat, k: nat)
    requires
        1 <= k < n <= usize::MAX / 2,
    ensures
        ordre_de(n).len() == 2 * n,
        ordre_de(n)[0] == Page::Planche(0, Cote::Droite),
        ordre_de(n)[2 * n - 1] == Page::Blanche,
        ordre_de(n)[2 * k - 1] == Page::Planche(k as usize, Cote::Gauche),
        ordre_de(n)[2 * k as int] == Page::Planche(k as usize, Cote::Droite),
        !ordre_de(n).contains(Page::Planche(0, Cote::Gauche)),
{
    assert((2 * k - 1) % 2 == 1) by (nonlinear_arith) requires k >= 1;
    assert((2 * k) % 2 == 0) by (nonlinear_arith);
    assert((2 * k - 1 + 1) / 2 == k) by (nonlinear_arith) requires k >= 1;
    assert((2 * k) / 2 == k) by (nonlinear_arith);
    if ordre_de(n).contains(Page::Planche(0, Cote::Gauche)) {
        let p = choose|p: int| 0 <= p < ordre_de(n).len() && ordre_de(n)[p] == Page::Planche(0, Cote::Gauche);
        if p % 2 == 1 && p != 2 * n - 1 {
            assert(1 <= (p + 1) / 2 <= n);
            assert(((p + 1) / 2) as usize != 0usize);
        }
    }
}

} // verus!
