//! Text as a sequence of characters: the few std operations the library
//! needs on strings, stated over `Seq<char>` so that a contract can say what
//! a name, a line or a path comes out as.

use vstd::prelude::*;
use vstd::std_specs::iter::IteratorSpec;

verus! {

/// The Unicode `White_Space` property, which is what `char::is_whitespace`
/// tests and what `str::trim` strips.
pub open spec fn blanc(c: char) -> bool {
    let u = c as u32;
    ||| 0x9 <= u <= 0xD
    ||| u == 0x20
    ||| u == 0x85
    ||| u == 0xA0
    ||| u == 0x1680
    ||| 0x2000 <= u <= 0x200A
    ||| u == 0x2028
    ||| u == 0x2029
    ||| u == 0x202F
    ||| u == 0x205F
    ||| u == 0x3000
}

/// `s` without its leading white space.
pub open spec fn sans_blanc_debut(s: Seq<char>) -> Seq<char>
    decreases s.len(),
{
    if s.len() > 0 && blanc(s[0]) {
        sans_blanc_debut(s.drop_first())
    } else {
        s
    }
}

/// `s` without its trailing white space.
pub open spec fn sans_blanc_fin(s: Seq<char>) -> Seq<char>
    decreases s.len(),
{
    if s.len() > 0 && blanc(s.last()) {
        sans_blanc_fin(s.drop_last())
    } else {
        s
    }
}

/// `str::trim`: white space off both ends.
pub open spec fn rogne(s: Seq<char>) -> Seq<char> {
    sans_blanc_fin(sans_blanc_debut(s))
}

/// `s` without every leading occurrence of `c` (`trim_start_matches`).
pub open spec fn sans_debut(s: Seq<char>, c: char) -> Seq<char>
    decreases s.len(),
{
    if s.len() > 0 && s[0] == c {
        sans_debut(s.drop_first(), c)
    } else {
        s
    }
}

/// The character of a decimal digit.
pub open spec fn chiffre(d: nat) -> char {
    if d == 0 { '0' }
    else if d == 1 { '1' }
    else if d == 2 { '2' }
    else if d == 3 { '3' }
    else if d == 4 { '4' }
    else if d == 5 { '5' }
    else if d == 6 { '6' }
    else if d == 7 { '7' }
    else if d == 8 { '8' }
    else { '9' }
}

/// Whether `c` is an ASCII digit.
pub open spec fn est_chiffre(c: char) -> bool {
    '0' <= c <= '9'
}

/// The value of an ASCII digit.
pub open spec fn valeur_chiffre(c: char) -> nat {
    (c as u32 - '0' as u32) as nat
}

/// `n` written in decimal, without leading zeros (`format!("{n}")`).
pub open spec fn decimal(n: nat) -> Seq<char>
    decreases n,
{
    if n < 10 {
        seq![chiffre(n)]
    } else {
        decimal(n / 10).push(chiffre(n % 10))
    }
}

/// A run of `n` copies of `c`.
pub open spec fn repete(c: char, n: nat) -> Seq<char> {
    Seq::new(n, |_i: int| c)
}

/// `s` padded on the left with zeros up to `largeur` characters
/// (`format!("{n:0largeur$}")` applied to a decimal `s`).
pub open spec fn zeros_devant(s: Seq<char>, largeur: nat) -> Seq<char> {
    if s.len() < largeur {
        repete('0', (largeur - s.len()) as nat) + s
    } else {
        s
    }
}

/// `s` padded on the right with spaces up to `largeur` characters
/// (`format!("{s:<largeur$}")`).
pub open spec fn espaces_apres(s: Seq<char>, largeur: nat) -> Seq<char> {
    if s.len() < largeur {
        s + repete(' ', (largeur - s.len()) as nat)
    } else {
        s
    }
}

/// The number a string of decimal digits reads as.
pub open spec fn valeur(s: Seq<char>) -> nat
    decreases s.len(),
{
    if s.len() == 0 {
        0
    } else {
        valeur(s.drop_last()) * 10 + valeur_chiffre(s.last())
    }
}

/// Every character of `s` is a decimal digit.
pub open spec fn que_des_chiffres(s: Seq<char>) -> bool {
    forall|i: int| 0 <= i < s.len() ==> est_chiffre(#[trigger] s[i])
}

/// `c` occurs in `s`.
pub open spec fn contient(s: Seq<char>, c: char) -> bool {
    exists|i: int| 0 <= i < s.len() && s[i] == c
}

// --- Lemmas -------------------------------------------------------------

pub proof fn lemme_chiffre(d: nat)
    requires
        d < 10,
    ensures
        est_chiffre(chiffre(d)),
        valeur_chiffre(chiffre(d)) == d,
{
}

/// A decimal number reads back as itself, and holds digits only.
pub proof fn lemme_decimal(n: nat)
    ensures
        que_des_chiffres(decimal(n)),
        valeur(decimal(n)) == n,
        decimal(n).len() >= 1,
        n >= 10 ==> decimal(n).len() >= 2,
    decreases n,
{
    if n < 10 {
        lemme_chiffre(n);
        assert(decimal(n).drop_last() =~= Seq::<char>::empty());
        assert(valeur(Seq::<char>::empty()) == 0);
        assert(valeur(decimal(n)) == valeur(decimal(n).drop_last()) * 10 + valeur_chiffre(chiffre(n)));
    } else {
        lemme_decimal(n / 10);
        lemme_chiffre(n % 10);
        let s = decimal(n);
        assert(s.drop_last() =~= decimal(n / 10));
        assert(valeur(s) == valeur(decimal(n / 10)) * 10 + valeur_chiffre(chiffre(n % 10)));
        assert((n / 10) * 10 + n % 10 == n);
        assert forall|i: int| 0 <= i < s.len() implies est_chiffre(#[trigger] s[i]) by {
            if i < s.len() - 1 {
                assert(s[i] == decimal(n / 10)[i]);
            }
        }
    }
}

/// Leading zeros do not change what digits read as.
pub proof fn lemme_valeur_zeros(z: nat, s: Seq<char>)
    ensures
        valeur(repete('0', z) + s) == valeur(s),
    decreases s.len(), z,
{
    if s.len() == 0 {
        assert(repete('0', z) + s =~= repete('0', z));
        if z > 0 {
            assert(repete('0', z).drop_last() =~= repete('0', (z - 1) as nat));
            lemme_valeur_zeros((z - 1) as nat, s);
            assert(repete('0', (z - 1) as nat) + s =~= repete('0', (z - 1) as nat));
        }
    } else {
        let t = repete('0', z) + s;
        assert(t.drop_last() =~= repete('0', z) + s.drop_last());
        lemme_valeur_zeros(z, s.drop_last());
    }
}

/// Zero padding keeps a decimal number readable as itself.
pub proof fn lemme_zeros_devant(n: nat, largeur: nat)
    ensures
        valeur(zeros_devant(decimal(n), largeur)) == n,
        que_des_chiffres(zeros_devant(decimal(n), largeur)),
{
    lemme_decimal(n);
    let s = decimal(n);
    if s.len() < largeur {
        let z = (largeur - s.len()) as nat;
        lemme_valeur_zeros(z, s);
        let t = repete('0', z) + s;
        assert forall|i: int| 0 <= i < t.len() implies est_chiffre(#[trigger] t[i]) by {
            if i >= z {
                assert(t[i] == s[i - z]);
            }
        }
    }
}

/// A string made of digits only holds neither of the two path separators.
pub proof fn lemme_chiffres_sans_separateur(s: Seq<char>)
    requires
        que_des_chiffres(s),
    ensures
        !contient(s, '/'),
        !contient(s, '\\'),
        !contient(s, '-'),
{
    assert forall|i: int| 0 <= i < s.len() implies s[i] != '/' && s[i] != '\\' && s[i] != '-' by {
        assert(est_chiffre(s[i]));
    }
}

/// Trimming keeps a contiguous run of the original.
pub proof fn lemme_sans_blanc_debut(s: Seq<char>)
    ensures
        exists|i: int| 0 <= i <= s.len() && sans_blanc_debut(s) == s.subrange(i, s.len() as int),
    decreases s.len(),
{
    if s.len() > 0 && blanc(s[0]) {
        lemme_sans_blanc_debut(s.drop_first());
        let i = choose|i: int|
            0 <= i <= s.drop_first().len() && sans_blanc_debut(s.drop_first())
                == s.drop_first().subrange(i, s.drop_first().len() as int);
        assert(s.drop_first().subrange(i, s.drop_first().len() as int) =~= s.subrange(
            i + 1,
            s.len() as int,
        ));
    } else {
        assert(s.subrange(0, s.len() as int) =~= s);
    }
}

pub proof fn lemme_sans_blanc_fin(s: Seq<char>)
    ensures
        exists|j: int| 0 <= j <= s.len() && sans_blanc_fin(s) == s.subrange(0, j),
    decreases s.len(),
{
    if s.len() > 0 && blanc(s.last()) {
        lemme_sans_blanc_fin(s.drop_last());
        let j = choose|j: int|
            0 <= j <= s.drop_last().len() && sans_blanc_fin(s.drop_last())
                == s.drop_last().subrange(0, j);
        assert(s.drop_last().subrange(0, j) =~= s.subrange(0, j));
    } else {
        assert(s.subrange(0, s.len() as int) =~= s);
    }
}

pub proof fn lemme_sans_debut(s: Seq<char>, c: char)
    ensures
        exists|i: int| 0 <= i <= s.len() && sans_debut(s, c) == s.subrange(i, s.len() as int),
    decreases s.len(),
{
    if s.len() > 0 && s[0] == c {
        lemme_sans_debut(s.drop_first(), c);
        let i = choose|i: int|
            0 <= i <= s.drop_first().len() && sans_debut(s.drop_first(), c)
                == s.drop_first().subrange(i, s.drop_first().len() as int);
        assert(s.drop_first().subrange(i, s.drop_first().len() as int) =~= s.subrange(
            i + 1,
            s.len() as int,
        ));
    } else {
        assert(s.subrange(0, s.len() as int) =~= s);
    }
}

/// What is absent from a sequence is absent from any run of it.
pub proof fn lemme_absent_sous_suite(s: Seq<char>, i: int, j: int, c: char)
    requires
        0 <= i <= j <= s.len(),
        !contient(s, c),
    ensures
        !contient(s.subrange(i, j), c),
{
    if contient(s.subrange(i, j), c) {
        let k = choose|k: int| 0 <= k < s.subrange(i, j).len() && s.subrange(i, j)[k] == c;
        assert(s[i + k] == c);
    }
}

/// `rogne` is a run of the original, and so keeps out what it kept out.
pub proof fn lemme_rogne_absent(s: Seq<char>, c: char)
    requires
        !contient(s, c),
    ensures
        !contient(rogne(s), c),
{
    lemme_sans_blanc_debut(s);
    let i = choose|i: int| 0 <= i <= s.len() && sans_blanc_debut(s) == s.subrange(i, s.len() as int);
    lemme_absent_sous_suite(s, i, s.len() as int, c);
    let t = sans_blanc_debut(s);
    lemme_sans_blanc_fin(t);
    let j = choose|j: int| 0 <= j <= t.len() && sans_blanc_fin(t) == t.subrange(0, j);
    lemme_absent_sous_suite(t, 0, j, c);
}

pub proof fn lemme_sans_debut_absent(s: Seq<char>, d: char, c: char)
    requires
        !contient(s, c),
    ensures
        !contient(sans_debut(s, d), c),
{
    lemme_sans_debut(s, d);
    let i = choose|i: int| 0 <= i <= s.len() && sans_debut(s, d) == s.subrange(i, s.len() as int);
    lemme_absent_sous_suite(s, i, s.len() as int, c);
}

// --- Executable ---------------------------------------------------------

/// `char::is_whitespace`.
pub fn est_blanc(c: char) -> (r: bool)
    ensures
        r == blanc(c),
{
    let u = c as u32;
    (0x9 <= u && u <= 0xD) || u == 0x20 || u == 0x85 || u == 0xA0 || u == 0x1680 || (0x2000 <= u
        && u <= 0x200A) || u == 0x2028 || u == 0x2029 || u == 0x202F || u == 0x205F || u == 0x3000
}

/// The bounds of `str::trim` over `v`: `v[debut..fin]` is `v` trimmed.
pub fn bornes_rognees(v: &[char]) -> (r: (usize, usize))
    ensures
        r.0 <= r.1 <= v@.len(),
        v@.subrange(r.0 as int, r.1 as int) == rogne(v@),
{
    let n = v.len();
    let mut i: usize = 0;
    assert(v@.subrange(0, n as int) =~= v@);
    while i < n && est_blanc(v[i])
        invariant
            n == v@.len(),
            0 <= i <= n,
            sans_blanc_debut(v@) == sans_blanc_debut(v@.subrange(i as int, n as int)),
        decreases n - i,
    {
        assert(v@.subrange(i as int, n as int).drop_first() =~= v@.subrange(i + 1, n as int));
        i = i + 1;
    }
    let ghost t = v@.subrange(i as int, n as int);
    assert(sans_blanc_debut(t) == t);
    let mut j: usize = n;
    while j > i && est_blanc(v[j - 1])
        invariant
            n == v@.len(),
            0 <= i <= j <= n,
            t == v@.subrange(i as int, n as int),
            sans_blanc_fin(t) == sans_blanc_fin(v@.subrange(i as int, j as int)),
        decreases j - i,
    {
        assert(v@.subrange(i as int, j as int).drop_last() =~= v@.subrange(i as int, j - 1));
        j = j - 1;
    }
    assert(sans_blanc_fin(v@.subrange(i as int, j as int)) == v@.subrange(i as int, j as int));
    (i, j)
}

/// The characters of a string slice, in order.
pub(crate) fn caracteres(s: &str) -> (v: Vec<char>)
    ensures
        v@ == s@,
{
    broadcast use vstd::string::axiom_spec_iter, vstd::string::next_postcondition;
    let mut it = s.chars();
    let mut v: Vec<char> = Vec::new();
    assert(v@ + it.remaining() =~= s@);
    loop
        invariant_except_break
            v@ + it.remaining() == s@,
            it.decrease() is Some,
        ensures
            v@ == s@,
        decreases it.decrease()->0,
    {
        let ghost avant = it.remaining();
        match it.next() {
            Some(c) => {
                v.push(c);
                assert(v@ + it.remaining() =~= s@) by {
                    assert(avant =~= seq![c] + avant.drop_first());
                }
            },
            None => {
                assert(v@ =~= s@);
                break;
            },
        }
    }
    v
}

/// A string made of these characters, in order.
#[verifier::external_body]
pub(crate) fn chaine(v: &[char]) -> (s: String)
    ensures
        s@ == v@,
{
    v.iter().collect()
}

/// Copy of `v[debut..fin]`.
pub fn tranche(v: &[char], debut: usize, fin: usize) -> (r: Vec<char>)
    requires
        debut <= fin <= v@.len(),
    ensures
        r@ == v@.subrange(debut as int, fin as int),
{
    let mut r: Vec<char> = Vec::new();
    let mut k = debut;
    while k < fin
        invariant
            debut <= k <= fin <= v@.len(),
            r@ == v@.subrange(debut as int, k as int),
        decreases fin - k,
    {
        r.push(v[k]);
        k = k + 1;
    }
    r
}

/// A copy of `v`.
pub fn copie(v: &[char]) -> (r: Vec<char>)
    ensures
        r@ == v@,
{
    let r = tranche(v, 0, v.len());
    assert(v@.subrange(0, v@.len() as int) =~= v@);
    r
}

/// `str::trim`, on characters.
pub fn rogner(v: &[char]) -> (r: Vec<char>)
    ensures
        r@ == rogne(v@),
{
    let (i, j) = bornes_rognees(v);
    tranche(v, i, j)
}

/// `trim_start_matches(c)`, on characters.
pub fn sans_prefixe_repete(v: &[char], c: char) -> (r: Vec<char>)
    ensures
        r@ == sans_debut(v@, c),
{
    let n = v.len();
    let mut i: usize = 0;
    assert(v@.subrange(0, n as int) =~= v@);
    while i < n && v[i] == c
        invariant
            n == v@.len(),
            0 <= i <= n,
            sans_debut(v@, c) == sans_debut(v@.subrange(i as int, n as int), c),
        decreases n - i,
    {
        assert(v@.subrange(i as int, n as int).drop_first() =~= v@.subrange(i + 1, n as int));
        i = i + 1;
    }
    assert(sans_debut(v@.subrange(i as int, n as int), c) == v@.subrange(i as int, n as int));
    tranche(v, i, n)
}

/// The digit character of `d`.
pub fn chiffre_de(d: u64) -> (c: char)
    requires
        d < 10,
    ensures
        c == chiffre(d as nat),
{
    if d == 0 { '0' }
    else if d == 1 { '1' }
    else if d == 2 { '2' }
    else if d == 3 { '3' }
    else if d == 4 { '4' }
    else if d == 5 { '5' }
    else if d == 6 { '6' }
    else if d == 7 { '7' }
    else if d == 8 { '8' }
    else { '9' }
}

/// `n` in decimal.
pub fn en_decimal(n: u64) -> (r: Vec<char>)
    ensures
        r@ == decimal(n as nat),
    decreases n,
{
    if n < 10 {
        let mut r: Vec<char> = Vec::new();
        r.push(chiffre_de(n));
        assert(r@ =~= seq![chiffre(n as nat)]);
        r
    } else {
        let mut r = en_decimal(n / 10);
        r.push(chiffre_de(n % 10));
        r
    }
}

/// `n` in decimal, padded with zeros to `largeur` characters.
pub fn en_decimal_zeros(n: u64, largeur: usize) -> (r: Vec<char>)
    ensures
        r@ == zeros_devant(decimal(n as nat), largeur as nat),
{
    let d = en_decimal(n);
    if d.len() < largeur {
        let mut r: Vec<char> = Vec::new();
        let k = largeur - d.len();
        let mut i: usize = 0;
        while i < k
            invariant
                i <= k,
                r@ == repete('0', i as nat),
            decreases k - i,
        {
            r.push('0');
            i = i + 1;
            assert(r@ =~= repete('0', i as nat));
        }
        let mut j: usize = 0;
        while j < d.len()
            invariant
                j <= d@.len(),
                r@ == repete('0', k as nat) + d@.subrange(0, j as int),
            decreases d.len() - j,
        {
            r.push(d[j]);
            j = j + 1;
            assert(r@ =~= repete('0', k as nat) + d@.subrange(0, j as int));
        }
        assert(d@.subrange(0, d@.len() as int) =~= d@);
        r
    } else {
        d
    }
}

/// `a` then `b`.
pub fn concat(a: &[char], b: &[char]) -> (r: Vec<char>)
    ensures
        r@ == a@ + b@,
{
    let mut r: Vec<char> = Vec::new();
    let mut i: usize = 0;
    while i < a.len()
        invariant
            i <= a@.len(),
            r@ == a@.subrange(0, i as int),
        decreases a.len() - i,
    {
        r.push(a[i]);
        i = i + 1;
        assert(r@ =~= a@.subrange(0, i as int));
    }
    let mut j: usize = 0;
    while j < b.len()
        invariant
            j <= b@.len(),
            i == a@.len(),
            r@ == a@ + b@.subrange(0, j as int),
        decreases b.len() - j,
    {
        r.push(b[j]);
        j = j + 1;
        assert(r@ =~= a@ + b@.subrange(0, j as int));
    }
    assert(a@.subrange(0, i as int) =~= a@);
    assert(b@.subrange(0, j as int) =~= b@);
    r
}

/// Whether `v` holds `c`.
pub fn tient(v: &[char], c: char) -> (r: bool)
    ensures
        r == contient(v@, c),
{
    let mut i: usize = 0;
    while i < v.len()
        invariant
            i <= v@.len(),
            forall|k: int| 0 <= k < i ==> v@[k] != c,
        decreases v.len() - i,
    {
        if v[i] == c {
            return true;
        }
        i = i + 1;
    }
    false
}

/// Whether two character sequences are the same.
pub fn egales(a: &[char], b: &[char]) -> (r: bool)
    ensures
        r == (a@ == b@),
{
    if a.len() != b.len() {
        return false;
    }
    let mut i: usize = 0;
    while i < a.len()
        invariant
            i <= a@.len(),
            a@.len() == b@.len(),
            forall|k: int| 0 <= k < i ==> a@[k] == b@[k],
        decreases a.len() - i,
    {
        if a[i] != b[i] {
            return false;
        }
        i = i + 1;
    }
    assert(a@ =~= b@);
    true
}

} // verus!

verus! {

/// The scalar values a `char` can hold: everything up to U+10FFFF but the
/// surrogates.
pub open spec fn scalaire(u: u32) -> bool {
    u < 0xD800 || (0xE000 <= u && u <= 0x10FFFF)
}

/// `char::from_u32`: the character with this scalar value, `None` for a
/// surrogate or a value past U+10FFFF.
#[verifier::external_body]
pub(crate) fn car_de(u: u32) -> (r: Option<char>)
    ensures
        scalaire(u) ==> r == Some(u as char),
        !scalaire(u) ==> r is None,
{
    char::from_u32(u)
}

/// The byte as a character of the Latin-1 block (`char::from(u8)`).
pub fn car_latin1(b: u8) -> (r: char)
    ensures
        r == (b as char),
{
    b as char
}

} // verus!

verus! {

/// The scalar value of a character.
pub open spec fn point_de_code(c: char) -> u32 {
    c as u32
}

/// `a` has a smaller scalar value than `b`.
pub fn precede(a: char, b: char) -> (r: bool)
    ensures
        r == (point_de_code(a) < point_de_code(b)),
{
    (a as u32) < (b as u32)
}

} // verus!
