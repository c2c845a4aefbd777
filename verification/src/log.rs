//! The privacy rule of the log file: no full photo path is ever written. A
//! path names people, places and dates; its file name alone carries the
//! diagnosis. Opening, rotating and appending to the file is the
//! application's business; what a line may say is decided here.

use vstd::prelude::*;
use crate::chaines::{caracteres, chaine};

verus! {

/// Both path separators: the rule follows the platform a path came from,
/// not the one the log is written on.
pub open spec fn separateur(c: char) -> bool {
    c == '/' || c == '\\'
}

/// How many separators a token holds.
pub open spec fn nb_sep(t: Seq<char>) -> nat
    decreases t.len(),
{
    if t.len() == 0 {
        0
    } else {
        nb_sep(t.drop_last()) + if separateur(t.last()) { 1nat } else { 0nat }
    }
}

/// A token that opens an absolute path: `/…`, or a drive letter followed by
/// `:\` or `:/`. (The drive test reads bytes 1 and 2, which for UTF-8 text
/// means an ASCII first character followed by the colon and a separator.)
pub open spec fn debut_chemin(t: Seq<char>) -> bool {
    (t.len() >= 1 && t[0] == '/')
        || (t.len() >= 3 && (t[0] as u32) < 128 && t[1] == ':' && separateur(t[2]))
}

/// What follows the last separator of a token: the file name of a path,
/// the whole token when it holds none.
pub open spec fn apres_dernier_sep(t: Seq<char>) -> Seq<char>
    decreases t.len(),
{
    if t.len() == 0 {
        t
    } else if separateur(t.last()) {
        Seq::empty()
    } else {
        apres_dernier_sep(t.drop_last()).push(t.last())
    }
}

/// The message cut at every space (`split(' ')`: two spaces make an empty
/// token between them).
pub open spec fn jetons(s: Seq<char>) -> Seq<Seq<char>>
    decreases s.len(),
{
    if s.len() == 0 {
        seq![Seq::empty()]
    } else {
        let r = jetons(s.drop_last());
        if s.last() == ' ' {
            r.push(Seq::empty())
        } else {
            r.update(r.len() - 1, r.last().push(s.last()))
        }
    }
}

/// Tokens joined by single spaces.
pub open spec fn joint(t: Seq<Seq<char>>) -> Seq<char>
    decreases t.len(),
{
    if t.len() == 0 {
        Seq::empty()
    } else if t.len() == 1 {
        t[0]
    } else {
        joint(t.drop_last()) + seq![' '] + t.last()
    }
}

/// The tokens `(i, j]` after a path start hold no four consecutive tokens
/// without a separator: the run of a path, allowing for the spaces inside
/// folder names.
pub open spec fn enchaine(t: Seq<Seq<char>>, i: int, j: int) -> bool {
    forall|k: int| i < k && k + 3 < j ==>
        nb_sep(#[trigger] t[k]) > 0 || nb_sep(t[k + 1]) > 0 || nb_sep(t[k + 2]) > 0 || nb_sep(t[k + 3]) > 0
}

/// Where the path opened by token `i` ends: the last separator-bearing
/// token its run reaches (token `i` itself when none follows).
pub open spec fn est_fin_chemin(t: Seq<Seq<char>>, i: int, e: int) -> bool {
    &&& i <= e < t.len()
    &&& (e == i || nb_sep(t[e]) > 0)
    &&& enchaine(t, i, e)
    &&& forall|j: int| e < j < t.len() && nb_sep(#[trigger] t[j]) > 0 ==> !enchaine(t, i, j)
}

pub open spec fn fin_chemin(t: Seq<Seq<char>>, i: int) -> int {
    if exists|e: int| est_fin_chemin(t, i, e) {
        let e = choose|e: int| est_fin_chemin(t, i, e);
        if e < i { i } else { e }
    } else {
        i
    }
}

/// The scrubbed tokens from token `i` on.
pub open spec fn nettoyes(t: Seq<Seq<char>>, i: int) -> Seq<Seq<char>>
    decreases t.len() - i,
{
    if i < 0 || i >= t.len() {
        Seq::empty()
    } else if debut_chemin(t[i]) {
        let e = fin_chemin(t, i);
        seq![apres_dernier_sep(t[e])] + nettoyes(t, e + 1)
    } else if nb_sep(t[i]) >= 2 {
        seq![apres_dernier_sep(t[i])] + nettoyes(t, i + 1)
    } else {
        seq![t[i]] + nettoyes(t, i + 1)
    }
}

/// The tokens' characters.
pub open spec fn vues(t: Seq<Vec<char>>) -> Seq<Seq<char>> {
    Seq::new(t.len(), |i: int| t[i]@)
}

/// The scrubbed message.
pub open spec fn nettoye(msg: Seq<char>) -> Seq<char> {
    joint(nettoyes(jetons(msg), 0))
}

pub proof fn lemme_fin_unique(t: Seq<Seq<char>>, i: int, e1: int, e2: int)
    requires
        est_fin_chemin(t, i, e1),
        est_fin_chemin(t, i, e2),
    ensures
        e1 == e2,
{
    if e1 < e2 {
        assert(nb_sep(t[e2]) > 0);
    } else if e2 < e1 {
        assert(nb_sep(t[e1]) > 0);
    }
}

pub proof fn lemme_apres_sans_sep(t: Seq<char>)
    ensures
        nb_sep(apres_dernier_sep(t)) == 0,
        !debut_chemin(apres_dernier_sep(t)),
    decreases t.len(),
{
    if t.len() > 0 && !separateur(t.last()) {
        lemme_apres_sans_sep(t.drop_last());
        let a = apres_dernier_sep(t.drop_last());
        assert(a.push(t.last()).drop_last() =~= a);
        lemme_nb_sep_nul(a.push(t.last()));
    } else {
        lemme_nb_sep_nul(apres_dernier_sep(t));
    }
}

pub proof fn lemme_nb_sep_nul(t: Seq<char>)
    ensures
        nb_sep(t) == 0 <==> forall|k: int| 0 <= k < t.len() ==> !separateur(#[trigger] t[k]),
    decreases t.len(),
{
    if t.len() > 0 {
        lemme_nb_sep_nul(t.drop_last());
        if nb_sep(t) == 0 {
            assert forall|k: int| 0 <= k < t.len() implies !separateur(#[trigger] t[k]) by {
                if k < t.len() - 1 {
                    assert(t.drop_last()[k] == t[k]);
                }
            }
        } else if forall|k: int| 0 <= k < t.len() ==> !separateur(#[trigger] t[k]) {
            assert forall|k: int| 0 <= k < t.drop_last().len() implies !separateur(#[trigger] t.drop_last()[k]) by {
                assert(t.drop_last()[k] == t[k]);
            }
            assert(!separateur(t[t.len() - 1]));
        }
    }
}

fn separateurs(t: &Vec<char>) -> (n: usize)
    ensures
        n == nb_sep(t@),
{
    let mut n: usize = 0;
    let mut k: usize = 0;
    while k < t.len()
        invariant
            k <= t@.len(),
            n == nb_sep(t@.subrange(0, k as int)),
            n <= k,
        decreases t.len() - k,
    {
        proof {
            let s = t@.subrange(0, k as int + 1);
            assert(s.drop_last() =~= t@.subrange(0, k as int));
        }
        if t[k] == '/' || t[k] == '\\' {
            n = n + 1;
        }
        k = k + 1;
    }
    assert(t@.subrange(0, k as int) =~= t@);
    n
}

fn ouvre_un_chemin(t: &Vec<char>) -> (b: bool)
    ensures
        b == debut_chemin(t@),
{
    (t.len() >= 1 && t[0] == '/')
        || (t.len() >= 3 && (t[0] as u32) < 128 && t[1] == ':' && (t[2] == '/' || t[2] == '\\'))
}

fn nom_seul(t: &Vec<char>) -> (r: Vec<char>)
    ensures
        r@ == apres_dernier_sep(t@),
{
    let mut debut: usize = t.len();
    assert(t@.subrange(0, debut as int) =~= t@);
    assert(apres_dernier_sep(t@) + t@.subrange(debut as int, t@.len() as int) =~= apres_dernier_sep(t@));
    while debut > 0 && !(t[debut - 1] == '/' || t[debut - 1] == '\\')
        invariant
            debut <= t@.len(),
            apres_dernier_sep(t@) == apres_dernier_sep(t@.subrange(0, debut as int)) + t@.subrange(debut as int, t@.len() as int),
        decreases debut,
    {
        proof {
            let s = t@.subrange(0, debut as int);
            assert(s.drop_last() =~= t@.subrange(0, debut - 1));
            assert(apres_dernier_sep(s) == apres_dernier_sep(s.drop_last()).push(s.last()));
            assert(apres_dernier_sep(s.drop_last()).push(s.last()) + t@.subrange(debut as int, t@.len() as int)
                =~= apres_dernier_sep(s.drop_last()) + t@.subrange(debut - 1, t@.len() as int));
        }
        debut = debut - 1;
    }
    proof {
        if debut > 0 {
            let s = t@.subrange(0, debut as int);
            assert(separateur(s.last()));
        }
        assert(apres_dernier_sep(t@.subrange(0, debut as int)) =~= Seq::<char>::empty());
        assert(Seq::<char>::empty() + t@.subrange(debut as int, t@.len() as int) =~= t@.subrange(debut as int, t@.len() as int));
    }
    let mut r: Vec<char> = Vec::new();
    let mut k: usize = debut;
    while k < t.len()
        invariant
            debut <= k <= t@.len(),
            r@ == t@.subrange(debut as int, k as int),
        decreases t.len() - k,
    {
        r.push(t[k]);
        k = k + 1;
        assert(r@ =~= t@.subrange(debut as int, k as int));
    }
    r
}

proof fn lemme_enchaine_etend(ts: Seq<Seq<char>>, i: int, end: int, j: int)
    requires
        i <= end < j <= ts.len(),
        j - end <= 4,
        enchaine(ts, i, end),
        end == i || nb_sep(ts[end]) > 0,
        forall|m: int| end < m < j ==> nb_sep(#[trigger] ts[m]) == 0,
    ensures
        enchaine(ts, i, j),
{
    assert forall|k: int| i < k && k + 3 < j implies
        nb_sep(#[trigger] ts[k]) > 0 || nb_sep(ts[k + 1]) > 0 || nb_sep(ts[k + 2]) > 0 || nb_sep(ts[k + 3]) > 0 by {
        if k + 3 < end {
        } else if k <= end {
            assert(end != i);
            if k == end {
            } else if k + 1 == end {
            } else if k + 2 == end {
            } else {
                assert(k + 3 == end);
            }
        }
    }
}

/// Where the path opened at token `i` ends, scanning its run.
fn fin_du_chemin(t: &Vec<Vec<char>>, i: usize) -> (e: usize)
    requires
        i < t@.len(),
    ensures
        e as int == fin_chemin(vues(t@), i as int),
        i <= e < t@.len(),
{
    let ghost ts = vues(t@);
    let n = t.len();
    let mut end = i;
    let mut j = i + 1;
    let mut gap: usize = 0;
    while j < n && gap <= 3
        invariant
            ts == vues(t@),
            n == t@.len(),
            i < j <= n,
            i <= end < j,
            gap <= 4,
            end == i || nb_sep(ts[end as int]) > 0,
            end + gap + 1 == j,
            forall|m: int| end < m < j ==> nb_sep(#[trigger] ts[m]) == 0,
            enchaine(ts, i as int, end as int),
        decreases n - j,
    {
        if separateurs(&t[j]) > 0 {
            proof {
                lemme_enchaine_etend(ts, i as int, end as int, j as int);
            }
            end = j;
            gap = 0;
        } else {
            gap = gap + 1;
        }
        j = j + 1;
    }
    proof {
        assert forall|jj: int| end < jj < ts.len() && nb_sep(#[trigger] ts[jj]) > 0 implies
            !enchaine(ts, i as int, jj) by {
            assert(gap == 4);
            let k = end + 1;
            assert(nb_sep(ts[k]) == 0 && nb_sep(ts[k + 1]) == 0 && nb_sep(ts[k + 2]) == 0 && nb_sep(ts[k + 3]) == 0);
        }
        assert(est_fin_chemin(ts, i as int, end as int));
        let e = choose|e: int| est_fin_chemin(ts, i as int, e);
        lemme_fin_unique(ts, i as int, e, end as int);
    }
    end
}

fn decouper(v: &Vec<char>) -> (r: Vec<Vec<char>>)
    ensures
        vues(r@) == jetons(v@),
{
    let mut faits: Vec<Vec<char>> = Vec::new();
    let mut cur: Vec<char> = Vec::new();
    let mut k: usize = 0;
    assert(vues(faits@).push(cur@) =~= jetons(v@.subrange(0, 0)));
    while k < v.len()
        invariant
            k <= v@.len(),
            vues(faits@).push(cur@) == jetons(v@.subrange(0, k as int)),
        decreases v.len() - k,
    {
        proof {
            let s = v@.subrange(0, k as int + 1);
            assert(s.drop_last() =~= v@.subrange(0, k as int));
        }
        if v[k] == ' ' {
            let fini = cur;
            faits.push(fini);
            cur = Vec::new();
            assert(vues(faits@).push(cur@) =~= jetons(v@.subrange(0, k as int)).push(Seq::empty()));
        } else {
            let ghost avant = cur@;
            cur.push(v[k]);
            assert(vues(faits@).push(cur@) =~= vues(faits@).push(avant).update(faits@.len() as int, avant.push(v@[k as int])));
        }
        k = k + 1;
    }
    assert(v@.subrange(0, k as int) =~= v@);
    faits.push(cur);
    assert(vues(faits@) =~= jetons(v@));
    faits
}

fn joindre_jetons(t: &Vec<Vec<char>>) -> (r: Vec<char>)
    ensures
        r@ == joint(vues(t@)),
{
    let mut r: Vec<char> = Vec::new();
    let mut i: usize = 0;
    while i < t.len()
        invariant
            i <= t@.len(),
            r@ == joint(vues(t@).subrange(0, i as int)),
        decreases t.len() - i,
    {
        let ghost avant = r@;
        if i > 0 {
            r.push(' ');
        }
        let tok = &t[i];
        let mut k: usize = 0;
        while k < tok.len()
            invariant
                *tok == t@[i as int],
                i < t@.len(),
                k <= t@[i as int]@.len(),
                r@ == (if i > 0 { avant + seq![' '] } else { avant }) + t@[i as int]@.subrange(0, k as int),
            decreases tok.len() - k,
        {
            r.push(tok[k]);
            k = k + 1;
            assert(r@ =~= (if i > 0 { avant + seq![' '] } else { avant }) + t@[i as int]@.subrange(0, k as int));
        }
        proof {
            assert(t@[i as int]@.subrange(0, k as int) =~= t@[i as int]@);
            let s = vues(t@).subrange(0, i as int + 1);
            assert(s.drop_last() =~= vues(t@).subrange(0, i as int));
            if i == 0 {
                assert(avant =~= Seq::<char>::empty());
                assert(r@ =~= s[0]);
            }
        }
        i = i + 1;
    }
    assert(vues(t@).subrange(0, i as int) =~= vues(t@));
    r
}

fn copie_jeton(v: &Vec<char>) -> (r: Vec<char>)
    ensures
        r@ == v@,
{
    let mut r: Vec<char> = Vec::new();
    let mut k: usize = 0;
    while k < v.len()
        invariant
            k <= v@.len(),
            r@ == v@.subrange(0, k as int),
        decreases v.len() - k,
    {
        r.push(v[k]);
        k = k + 1;
        assert(r@ =~= v@.subrange(0, k as int));
    }
    assert(v@.subrange(0, k as int) =~= v@);
    r
}

/// Replace every path by its final component. `/Users/x/Été à la
/// mer/plage.jpg` logs as `plage.jpg`. From a token that opens a path the
/// scrub swallows the following tokens up to the last separator-bearing one
/// of its run, allowing gaps of up to three tokens for the spaces inside
/// folder names; a relative path held in one token with two separators or
/// more keeps its name too. Everything else is left as written.
pub fn scrub(msg: &str) -> (r: String)
    ensures
        r@ == nettoye(msg@),
{
    let v = caracteres(msg);
    let t = decouper(&v);
    let ghost ts = vues(t@);
    let n = t.len();
    let mut out: Vec<Vec<char>> = Vec::new();
    let mut i: usize = 0;
    assert(vues(out@) + nettoyes(ts, 0) =~= nettoyes(ts, 0));
    while i < n
        invariant
            n == t@.len(),
            ts == vues(t@),
            i <= n,
            vues(out@) + nettoyes(ts, i as int) == nettoyes(ts, 0),
        decreases n - i,
    {
        let ghost avant = vues(out@);
        if ouvre_un_chemin(&t[i]) {
            let e = fin_du_chemin(&t, i);
            let nom = nom_seul(&t[e]);
            out.push(nom);
            assert(vues(out@) =~= avant.push(apres_dernier_sep(ts[e as int])));
            assert(avant + nettoyes(ts, i as int) =~= vues(out@) + nettoyes(ts, e as int + 1));
            i = e + 1;
        } else if separateurs(&t[i]) >= 2 {
            let nom = nom_seul(&t[i]);
            out.push(nom);
            assert(vues(out@) =~= avant.push(apres_dernier_sep(ts[i as int])));
            assert(avant + nettoyes(ts, i as int) =~= vues(out@) + nettoyes(ts, i as int + 1));
            i = i + 1;
        } else {
            let tel = copie_jeton(&t[i]);
            out.push(tel);
            assert(vues(out@) =~= avant.push(ts[i as int]));
            assert(avant + nettoyes(ts, i as int) =~= vues(out@) + nettoyes(ts, i as int + 1));
            i = i + 1;
        }
    }
    assert(vues(out@) =~= nettoyes(ts, 0));
    let joint_v = joindre_jetons(&out);
    chaine(&joint_v)
}

// --- The privacy law ----------------------------------------------------------------

/// A sequence of characters without a space.
pub open spec fn sans_espace(t: Seq<char>) -> bool {
    forall|k: int| 0 <= k < t.len() ==> t[k] != ' '
}

proof fn lemme_nettoyes_sans_chemin(t: Seq<Seq<char>>, i: int)
    requires
        forall|k: int| 0 <= k < t.len() ==> sans_espace(#[trigger] t[k]),
    ensures
        forall|k: int| 0 <= k < nettoyes(t, i).len() ==>
            !debut_chemin(#[trigger] nettoyes(t, i)[k]) && nb_sep(nettoyes(t, i)[k]) < 2
            && sans_espace(nettoyes(t, i)[k]),
    decreases t.len() - i,
{
    if 0 <= i < t.len() {
        if debut_chemin(t[i]) {
            let e = fin_chemin(t, i);
            if exists|e2: int| est_fin_chemin(t, i, e2) {
                let e2 = choose|e2: int| est_fin_chemin(t, i, e2);
                assert(e2 < t.len());
            }
            lemme_nettoyes_sans_chemin(t, e + 1);
            lemme_apres_sans_sep(t[e]);
            lemme_apres_sans_espace(t[e]);
            let r = nettoyes(t, i);
            assert(r =~= seq![apres_dernier_sep(t[e])] + nettoyes(t, e + 1));
            assert forall|k: int| 0 <= k < r.len() implies
                !debut_chemin(#[trigger] r[k]) && nb_sep(r[k]) < 2 && sans_espace(r[k]) by {
                if k > 0 {
                    assert(r[k] == nettoyes(t, e + 1)[k - 1]);
                }
            }
        } else {
            lemme_nettoyes_sans_chemin(t, i + 1);
            lemme_apres_sans_sep(t[i]);
            lemme_apres_sans_espace(t[i]);
            let r = nettoyes(t, i);
            assert forall|k: int| 0 <= k < r.len() implies
                !debut_chemin(#[trigger] r[k]) && nb_sep(r[k]) < 2 && sans_espace(r[k]) by {
                if k > 0 {
                    assert(r[k] == nettoyes(t, i + 1)[k - 1]);
                }
            }
        }
    }
}

proof fn lemme_apres_sans_espace(t: Seq<char>)
    requires
        sans_espace(t),
    ensures
        sans_espace(apres_dernier_sep(t)),
    decreases t.len(),
{
    if t.len() > 0 && !separateur(t.last()) {
        lemme_apres_sans_espace(t.drop_last());
    }
}

proof fn lemme_jetons_sans_espace(s: Seq<char>)
    ensures
        jetons(s).len() >= 1,
        forall|k: int| 0 <= k < jetons(s).len() ==> sans_espace(#[trigger] jetons(s)[k]),
    decreases s.len(),
{
    if s.len() > 0 {
        lemme_jetons_sans_espace(s.drop_last());
        let r = jetons(s.drop_last());
        if s.last() != ' ' {
            let l = r.last().push(s.last());
            assert(sans_espace(l));
            assert forall|k: int| 0 <= k < jetons(s).len() implies sans_espace(#[trigger] jetons(s)[k]) by {
                if k < r.len() - 1 {
                    assert(jetons(s)[k] == r[k]);
                }
            }
        } else {
            assert forall|k: int| 0 <= k < jetons(s).len() implies sans_espace(#[trigger] jetons(s)[k]) by {
                if k < r.len() {
                    assert(jetons(s)[k] == r[k]);
                }
            }
        }
    }
}

proof fn lemme_jetons_ajout(a: Seq<char>, b: Seq<char>)
    requires
        sans_espace(b),
    ensures
        jetons(a + b) == jetons(a).update(jetons(a).len() - 1, jetons(a).last() + b),
    decreases b.len(),
{
    lemme_jetons_sans_espace(a);
    if b.len() == 0 {
        assert(a + b =~= a);
        assert(jetons(a).last() + b =~= jetons(a).last());
        assert(jetons(a).update(jetons(a).len() - 1, jetons(a).last()) =~= jetons(a));
    } else {
        let b2 = b.drop_last();
        lemme_jetons_ajout(a, b2);
        assert((a + b).drop_last() =~= a + b2);
        assert((a + b).last() == b.last());
        lemme_jetons_sans_espace(a + b2);
        let j = jetons(a);
        let r = jetons(a + b2);
        assert(b.last() == b[b.len() - 1]);
        assert(b.last() != ' ');
        assert(r.len() == j.len());
        assert(r.last() == j.last() + b2);
        assert((j.last() + b2).push(b.last()) =~= j.last() + b);
        assert(jetons(a + b) == r.update(r.len() - 1, r.last().push(b.last())));
        assert(jetons(a + b) =~= j.update(j.len() - 1, j.last() + b));
    }
}

proof fn lemme_jetons_joint(t: Seq<Seq<char>>)
    requires
        t.len() >= 1,
        forall|k: int| 0 <= k < t.len() ==> sans_espace(#[trigger] t[k]),
    ensures
        jetons(joint(t)) == t,
    decreases t.len(),
{
    if t.len() == 1 {
        lemme_jetons_ajout(Seq::empty(), t[0]);
        assert(Seq::<char>::empty() + t[0] =~= t[0]);
        assert(jetons(Seq::<char>::empty()) =~= seq![Seq::<char>::empty()]);
        assert(Seq::<char>::empty() + t[0] =~= t[0]);
        assert(jetons(joint(t)) =~= t);
    } else {
        let d = t.drop_last();
        lemme_jetons_joint(d);
        let a = joint(d) + seq![' '];
        assert(a.drop_last() =~= joint(d));
        assert(jetons(a) =~= d.push(Seq::empty()));
        assert(t.last() == t[t.len() - 1]);
        lemme_jetons_ajout(a, t.last());
        assert(Seq::<char>::empty() + t.last() =~= t.last());
        assert(jetons(joint(t)) =~= t);
    }
}

/// The privacy rule, whatever a message says: cut at its spaces, the line
/// the log receives holds no token that opens a path, and none with two
/// separators or more. A full path leaves only its file name.
pub proof fn loi_aucun_chemin_au_journal(msg: Seq<char>)
    ensures
        forall|k: int| 0 <= k < jetons(nettoye(msg)).len() ==>
            !debut_chemin(#[trigger] jetons(nettoye(msg))[k]) && nb_sep(jetons(nettoye(msg))[k]) < 2,
{
    let t = jetons(msg);
    lemme_jetons_sans_espace(msg);
    lemme_nettoyes_sans_chemin(t, 0);
    assert(nettoyes(t, 0).len() >= 1);
    lemme_jetons_joint(nettoyes(t, 0));
}


/// A message cut at its spaces and joined again is the message; and a
/// token holds no separator the message does not.
proof fn lemme_jetons(s: Seq<char>)
    ensures
        jetons(s).len() >= 1,
        joint(jetons(s)) == s,
        (forall|k: int| 0 <= k < s.len() ==> !separateur(#[trigger] s[k])) ==> forall|i: int, k: int|
            0 <= i < jetons(s).len() && 0 <= k < jetons(s)[i].len() ==> !separateur(#[trigger] jetons(s)[i][k]),
    decreases s.len(),
{
    if s.len() > 0 {
        let p = s.drop_last();
        lemme_jetons(p);
        let r = jetons(p);
        let c = s.last();
        if c == ' ' {
            let t = r.push(Seq::empty());
            assert(s =~= p.push(c));
            assert(t.drop_last() =~= r);
            assert(joint(t) == joint(r) + seq![' '] + Seq::<char>::empty());
            assert(joint(t) =~= s);
            if forall|k: int| 0 <= k < s.len() ==> !separateur(#[trigger] s[k]) {
                assert forall|k: int| 0 <= k < p.len() implies !separateur(#[trigger] p[k]) by {
                    assert(p[k] == s[k]);
                }
                assert forall|i: int, k: int| 0 <= i < t.len() && 0 <= k < t[i].len() implies !separateur(
                    #[trigger] t[i][k],
                ) by {
                    assert(t[i] == r[i]);
                }
            }
        } else {
            let l = r.len() - 1;
            let t = r.update(l, r.last().push(c));
            assert(s =~= p.push(c));
            if r.len() == 1 {
                assert(joint(t) == t[0]);
                assert(joint(r) == r[0]);
                assert(joint(t) =~= s);
            } else {
                assert(t.drop_last() =~= r.drop_last());
                assert(joint(t) == joint(r.drop_last()) + seq![' '] + r.last().push(c));
                assert(joint(r) == joint(r.drop_last()) + seq![' '] + r.last());
                assert(joint(t) =~= s);
            }
            if forall|k: int| 0 <= k < s.len() ==> !separateur(#[trigger] s[k]) {
                assert forall|k: int| 0 <= k < p.len() implies !separateur(#[trigger] p[k]) by {
                    assert(p[k] == s[k]);
                }
                assert forall|i: int, k: int| 0 <= i < t.len() && 0 <= k < t[i].len() implies !separateur(
                    #[trigger] t[i][k],
                ) by {
                    if i == l {
                        if k < r.last().len() {
                            assert(t[i][k] == r[l][k]);
                        } else {
                            assert(t[i][k] == s[s.len() - 1]);
                        }
                    } else {
                        assert(t[i] == r[i]);
                    }
                }
            }
        }
    }
}

/// Tokens without a separator are kept as they are.
proof fn lemme_nettoyes_sans_sep(t: Seq<Seq<char>>, i: int)
    requires
        0 <= i <= t.len(),
        forall|a: int, k: int| 0 <= a < t.len() && 0 <= k < t[a].len() ==> !separateur(#[trigger] t[a][k]),
    ensures
        nettoyes(t, i) == t.subrange(i, t.len() as int),
    decreases t.len() - i,
{
    if i < t.len() {
        lemme_nettoyes_sans_sep(t, i + 1);
        lemme_nb_sep_nul(t[i]);
        assert(forall|k: int| 0 <= k < t[i].len() ==> !separateur(#[trigger] t[i][k]));
        assert(!debut_chemin(t[i]));
        assert(nb_sep(t[i]) == 0);
        assert(nettoyes(t, i) =~= seq![t[i]] + t.subrange(i + 1, t.len() as int));
        assert(seq![t[i]] + t.subrange(i + 1, t.len() as int) =~= t.subrange(i, t.len() as int));
    } else {
        assert(t.subrange(i, t.len() as int) =~= Seq::<Seq<char>>::empty());
    }
}

/// A message with no path separator in it is written as it came.
pub proof fn loi_sans_separateur_rien_ne_change(msg: Seq<char>)
    requires
        forall|k: int| 0 <= k < msg.len() ==> !separateur(#[trigger] msg[k]),
    ensures
        nettoye(msg) == msg,
{
    lemme_jetons(msg);
    let t = jetons(msg);
    lemme_nettoyes_sans_sep(t, 0);
    assert(t.subrange(0, t.len() as int) =~= t);
}

} // verus!
