//! Character-level text operations with their mathematical meaning.
//!
//! Text is modelled as `Seq<char>`; every operation here is the one the
//! command parser needs (trimming, splitting, replacing, searching,
//! integer parsing), stated as a spec function and implemented over
//! `Vec<char>`.
use vstd::prelude::*;

verus! {

broadcast use vstd::seq_lib::group_seq_properties;

/// `String::push` appends one character to the end of the string.
pub assume_specification[ String::push ](string: &mut String, ch: char)
    ensures
        final(string)@ == old(string)@.push(ch),
;

/// The characters with the Unicode `White_Space` property, which is what
/// `char::is_whitespace` tests.
pub open spec fn es_espacio(c: char) -> bool {
    let n: u32 = c as u32;
    ||| 9 <= n <= 13
    ||| n == 32
    ||| n == 0x85
    ||| n == 0xA0
    ||| n == 0x1680
    ||| 0x2000 <= n <= 0x200A
    ||| n == 0x2028
    ||| n == 0x2029
    ||| n == 0x202F
    ||| n == 0x205F
    ||| n == 0x3000
}

pub fn es_espacio_exec(c: char) -> (b: bool)
    ensures
        b == es_espacio(c),
{
    let n: u32 = c as u32;
    (9 <= n && n <= 13) || n == 32 || n == 0x85 || n == 0xA0 || n == 0x1680 || (0x2000 <= n
        && n <= 0x200A) || n == 0x2028 || n == 0x2029 || n == 0x202F || n == 0x205F || n
        == 0x3000
}

/// The characters of a string slice, in order.
pub fn caracteres(s: &str) -> (v: Vec<char>)
    ensures
        v@ == s@,
{
    let mut v: Vec<char> = Vec::new();
    for c in it: s.chars()
        invariant
            v@ == it.seq().take(it.index() as int),
    {
        v.push(c);
    }
    proof { broadcast use vstd::string::group_string_axioms; }
    v
}


/// The string made of the given characters.
pub fn texto(v: &Vec<char>) -> (s: String)
    ensures
        s@ == v@,
{
    let mut s = String::new();
    let mut i: usize = 0;
    while i < v.len()
        invariant
            i <= v.len(),
            s@ == v@.take(i as int),
        decreases v.len() - i,
    {
        s.push(v[i]);
        i = i + 1;
        assert(s@ =~= v@.take(i as int));
    }
    assert(v@.take(v.len() as int) =~= v@);
    s
}

/// The texts of a vector of strings.
pub open spec fn textos(v: Seq<String>) -> Seq<Seq<char>> {
    v.map_values(|s: String| s@)
}

// ---------------------------------------------------------------- trimming

/// `s` without its leading whitespace.
pub open spec fn sin_espacios_inicio(s: Seq<char>) -> Seq<char>
    decreases s.len(),
{
    if s.len() > 0 && es_espacio(s[0]) {
        sin_espacios_inicio(s.drop_first())
    } else {
        s
    }
}

/// `s` without its trailing whitespace.
pub open spec fn sin_espacios_fin(s: Seq<char>) -> Seq<char>
    decreases s.len(),
{
    if s.len() > 0 && es_espacio(s.last()) {
        sin_espacios_fin(s.drop_last())
    } else {
        s
    }
}

/// `str::trim`: `s` without leading and trailing whitespace.
pub open spec fn recortar(s: Seq<char>) -> Seq<char> {
    sin_espacios_fin(sin_espacios_inicio(s))
}

pub proof fn lema_sin_inicio(s: Seq<char>, a: int)
    requires
        0 <= a <= s.len(),
        forall|j: int| 0 <= j < a ==> es_espacio(#[trigger] s[j]),
        a == s.len() || !es_espacio(s[a]),
    ensures
        sin_espacios_inicio(s) == s.skip(a),
    decreases a,
{
    if a == 0 {
        assert(s.skip(0) =~= s);
    } else {
        let t = s.drop_first();
        assert forall|j: int| 0 <= j < a - 1 implies es_espacio(#[trigger] t[j]) by {
            assert(t[j] == s[j + 1]);
        }
        lema_sin_inicio(t, a - 1);
        assert(t.skip(a - 1) =~= s.skip(a));
    }
}

pub proof fn lema_sin_fin(s: Seq<char>, b: int)
    requires
        0 <= b <= s.len(),
        forall|j: int| b <= j < s.len() ==> es_espacio(#[trigger] s[j]),
        b == 0 || !es_espacio(s[b - 1]),
    ensures
        sin_espacios_fin(s) == s.take(b),
    decreases s.len() - b,
{
    if b == s.len() {
        assert(s.take(b) =~= s);
    } else {
        let t = s.drop_last();
        lema_sin_fin(t, b);
        assert(t.take(b) =~= s.take(b));
    }
}

/// `str::trim`.
pub fn recortar_exec(s: &Vec<char>) -> (r: Vec<char>)
    ensures
        r@ == recortar(s@),
{
    let mut a: usize = 0;
    while a < s.len() && es_espacio_exec(s[a])
        invariant
            a <= s.len(),
            forall|j: int| 0 <= j < a ==> es_espacio(#[trigger] s@[j]),
        decreases s.len() - a,
    {
        a = a + 1;
    }
    let mut b: usize = s.len();
    while b > a && es_espacio_exec(s[b - 1])
        invariant
            a <= b <= s.len(),
            forall|j: int| b <= j < s.len() ==> es_espacio(#[trigger] s@[j]),
        decreases b - a,
    {
        b = b - 1;
    }
    let mut r: Vec<char> = Vec::new();
    let mut k: usize = a;
    while k < b
        invariant
            a <= k <= b <= s.len(),
            r@ == s@.subrange(a as int, k as int),
        decreases b - k,
    {
        r.push(s[k]);
        k = k + 1;
        assert(r@ =~= s@.subrange(a as int, k as int));
    }
    proof {
        lema_sin_inicio(s@, a as int);
        let t = s@.skip(a as int);
        assert forall|j: int| b - a <= j < t.len() implies es_espacio(#[trigger] t[j]) by {
            assert(t[j] == s@[j + a]);
        }
        if b > a {
            assert(t[b - a - 1] == s@[b - 1]);
        }
        lema_sin_fin(t, b - a);
        assert(t.take(b - a) =~= s@.subrange(a as int, b as int));
    }
    r
}

// ---------------------------------------------------------------- patterns

/// `s` begins with `p`.
pub open spec fn empieza_con(s: Seq<char>, p: Seq<char>) -> bool {
    p.len() <= s.len() && s.take(p.len() as int) == p
}

/// Whether `p` occurs in `s` starting at character `i`.
pub fn empieza_en(s: &Vec<char>, i: usize, p: &Vec<char>) -> (b: bool)
    requires
        i <= s.len(),
    ensures
        b == empieza_con(s@.skip(i as int), p@),
{
    if p.len() > s.len() - i {
        return false;
    }
    let mut k: usize = 0;
    while k < p.len()
        invariant
            i + p.len() <= s.len(),
            k <= p.len(),
            forall|j: int| 0 <= j < k ==> s@[i + j] == p@[j],
        decreases p.len() - k,
    {
        if s[i + k] != p[k] {
            assert(s@.skip(i as int).take(p.len() as int)[k as int] != p@[k as int]);
            return false;
        }
        k = k + 1;
    }
    assert(s@.skip(i as int).take(p.len() as int) =~= p@);
    true
}

/// `str::split` with a non-empty pattern: the pieces of `s` between the
/// non-overlapping occurrences of `p`, found from left to right.
pub open spec fn partir(s: Seq<char>, p: Seq<char>) -> Seq<Seq<char>>
    decreases s.len(),
{
    if s.len() == 0 {
        seq![Seq::<char>::empty()]
    } else if p.len() > 0 && empieza_con(s, p) {
        seq![Seq::<char>::empty()] + partir(s.skip(p.len() as int), p)
    } else {
        let r = partir(s.drop_first(), p);
        r.update(0, seq![s[0]] + r[0])
    }
}

pub proof fn lema_partir_no_vacio(s: Seq<char>, p: Seq<char>)
    ensures
        partir(s, p).len() >= 1,
    decreases s.len(),
{
    if s.len() == 0 {
    } else if p.len() > 0 && empieza_con(s, p) {
        lema_partir_no_vacio(s.skip(p.len() as int), p);
    } else {
        lema_partir_no_vacio(s.drop_first(), p);
    }
}

/// `a` and `b` joined so that the last piece of `a` and the first of `b`
/// become one piece.
pub open spec fn pegar(a: Seq<Seq<char>>, b: Seq<Seq<char>>) -> Seq<Seq<char>> {
    a.drop_last() + seq![a.last() + b[0]] + b.skip(1)
}

/// `str::split` with a non-empty pattern.
pub fn partir_exec(s: &Vec<char>, p: &Vec<char>) -> (r: Vec<Vec<char>>)
    requires
        p.len() > 0,
    ensures
        r@.map_values(|x: Vec<char>| x@) == partir(s@, p@),
{
    let mut piezas: Vec<Vec<char>> = Vec::new();
    let mut actual: Vec<char> = Vec::new();
    let mut i: usize = 0;
    proof {
        assert(s@.skip(0) =~= s@);
        lema_partir_no_vacio(s@, p@);
        let vacia = piezas@.map_values(|x: Vec<char>| x@);
        assert(vacia =~= Seq::<Seq<char>>::empty());
        assert(pegar(vacia.push(actual@), partir(s@, p@)) =~~= partir(s@, p@));
    }
    while i < s.len()
        invariant
            i <= s.len(),
            p.len() > 0,
            partir(s@, p@) == pegar(
                piezas@.map_values(|x: Vec<char>| x@).push(actual@),
                partir(s@.skip(i as int), p@),
            ),
        decreases s.len() - i,
    {
        let ghost antes = piezas@.map_values(|x: Vec<char>| x@);
        let ghost resto = s@.skip(i as int);
        if empieza_en(s, i, p) {
            let ghost r2 = partir(resto.skip(p.len() as int), p@);
            proof {
                lema_partir_no_vacio(resto.skip(p.len() as int), p@);
                assert(resto.skip(p.len() as int) =~= s@.skip(i + p.len()));
            }
            let ghost viejo = actual@;
            piezas.push(actual);
            actual = Vec::new();
            i = i + p.len();
            proof {
                let nuevo = piezas@.map_values(|x: Vec<char>| x@);
                assert(nuevo =~= antes.push(viejo));
                assert(pegar(antes.push(viejo), partir(resto, p@)) =~= pegar(
                    nuevo.push(actual@),
                    r2,
                ));
            }
        } else {
            let ghost r2 = partir(resto.drop_first(), p@);
            proof {
                lema_partir_no_vacio(resto.drop_first(), p@);
                assert(resto.drop_first() =~= s@.skip(i + 1));
            }
            let ghost viejo = actual@;
            actual.push(s[i]);
            i = i + 1;
            proof {
                assert(piezas@.map_values(|x: Vec<char>| x@) == antes);
                assert(resto[0] == s@[i - 1]);
                assert(partir(resto, p@) == r2.update(0, seq![resto[0]] + r2[0]));
                assert(pegar(antes.push(viejo), partir(resto, p@)) =~~= pegar(
                    antes.push(actual@),
                    r2,
                ));
            }
        }
    }
    let ghost antes = piezas@.map_values(|x: Vec<char>| x@);
    proof {
        assert(s@.skip(i as int) =~= Seq::<char>::empty());
    }
    piezas.push(actual);
    proof {
        assert(piezas@.map_values(|x: Vec<char>| x@) =~= pegar(
            antes.push(actual@),
            partir(Seq::<char>::empty(), p@),
        ));
    }
    piezas
}


/// `str::replace` with a non-empty pattern: every non-overlapping
/// occurrence of `de`, found from left to right, replaced by `a`.
pub open spec fn reemplazar(s: Seq<char>, de: Seq<char>, a: Seq<char>) -> Seq<char>
    decreases s.len(),
{
    if s.len() == 0 {
        Seq::<char>::empty()
    } else if de.len() > 0 && empieza_con(s, de) {
        a + reemplazar(s.skip(de.len() as int), de, a)
    } else {
        seq![s[0]] + reemplazar(s.drop_first(), de, a)
    }
}

/// `str::replace` with a non-empty pattern.
pub fn reemplazar_exec(s: &Vec<char>, de: &Vec<char>, a: &Vec<char>) -> (r: Vec<char>)
    requires
        de.len() > 0,
    ensures
        r@ == reemplazar(s@, de@, a@),
{
    let mut r: Vec<char> = Vec::new();
    let mut i: usize = 0;
    assert(s@.skip(0) =~= s@);
    while i < s.len()
        invariant
            i <= s.len(),
            de.len() > 0,
            reemplazar(s@, de@, a@) == r@ + reemplazar(s@.skip(i as int), de@, a@),
        decreases s.len() - i,
    {
        let ghost resto = s@.skip(i as int);
        let ghost antes = r@;
        if empieza_en(s, i, de) {
            let mut k: usize = 0;
            while k < a.len()
                invariant
                    k <= a.len(),
                    r@ == antes + a@.take(k as int),
                decreases a.len() - k,
            {
                r.push(a[k]);
                k = k + 1;
                assert(r@ =~= antes + a@.take(k as int));
            }
            assert(a@.take(a.len() as int) =~= a@);
            assert(resto.skip(de.len() as int) =~= s@.skip(i + de.len()));
            i = i + de.len();
            assert(antes + reemplazar(resto, de@, a@) =~= r@ + reemplazar(
                s@.skip(i as int),
                de@,
                a@,
            ));
        } else {
            r.push(s[i]);
            assert(resto.drop_first() =~= s@.skip(i + 1));
            i = i + 1;
            assert(antes + reemplazar(resto, de@, a@) =~= r@ + reemplazar(
                s@.skip(i as int),
                de@,
                a@,
            ));
        }
    }
    assert(r@ + reemplazar(s@.skip(i as int), de@, a@) =~= r@);
    r
}

/// `str::contains` with a string pattern.
pub open spec fn contiene(s: Seq<char>, p: Seq<char>) -> bool {
    exists|i: int| 0 <= i <= s.len() && #[trigger] empieza_con(s.skip(i), p)
}

/// `str::contains` with a string pattern.
pub fn contiene_exec(s: &Vec<char>, p: &Vec<char>) -> (b: bool)
    ensures
        b == contiene(s@, p@),
{
    let mut i: usize = 0;
    while i < s.len()
        invariant
            i <= s.len(),
            forall|j: int| 0 <= j < i ==> !#[trigger] empieza_con(s@.skip(j), p@),
        decreases s.len() - i,
    {
        if empieza_en(s, i, p) {
            return true;
        }
        i = i + 1;
    }
    if empieza_en(s, i, p) {
        return true;
    }
    assert forall|j: int| 0 <= j <= s.len() implies !#[trigger] empieza_con(s@.skip(j), p@) by {}
    false
}

/// Position of the first occurrence of `p` in `s`, or -1.
pub open spec fn primera_ocurrencia(s: Seq<char>, p: Seq<char>) -> int
    decreases s.len(),
{
    if empieza_con(s, p) {
        0
    } else if s.len() == 0 {
        -1
    } else {
        let r = primera_ocurrencia(s.drop_first(), p);
        if r < 0 {
            -1
        } else {
            r + 1
        }
    }
}

/// `str::split_once`: the text before and after the first occurrence of
/// `p`, if there is one.
pub open spec fn dividir_una_vez(s: Seq<char>, p: Seq<char>) -> Option<(Seq<char>, Seq<char>)> {
    let i = primera_ocurrencia(s, p);
    if i >= 0 {
        Some((s.take(i), s.skip(i + p.len())))
    } else {
        None
    }
}

proof fn lema_primera_ocurrencia(s: Seq<char>, p: Seq<char>, i: int)
    requires
        0 <= i <= s.len(),
        forall|j: int| 0 <= j < i ==> !#[trigger] empieza_con(s.skip(j), p),
    ensures
        primera_ocurrencia(s, p) == (if primera_ocurrencia(s.skip(i), p) < 0 {
            -1
        } else {
            primera_ocurrencia(s.skip(i), p) + i
        }),
    decreases i,
{
    if i > 0 {
        assert(s.skip(0) =~= s);
        assert(!empieza_con(s.skip(0), p));
        let t = s.drop_first();
        assert forall|j: int| 0 <= j < i - 1 implies !#[trigger] empieza_con(t.skip(j), p) by {
            assert(t.skip(j) =~= s.skip(j + 1));
        }
        lema_primera_ocurrencia(t, p, i - 1);
        assert(t.skip(i - 1) =~= s.skip(i));
    } else {
        assert(s.skip(0) =~= s);
    }
}

/// `str::split_once` with a string pattern.
pub fn dividir_una_vez_exec(s: &Vec<char>, p: &Vec<char>) -> (r: Option<(Vec<char>, Vec<char>)>)
    ensures
        match r {
            Some(x) => dividir_una_vez(s@, p@) == Some((x.0@, x.1@)),
            None => dividir_una_vez(s@, p@) is None,
        },
{
    let mut i: usize = 0;
    while i < s.len()
        invariant
            i <= s.len(),
            forall|j: int| 0 <= j < i ==> !#[trigger] empieza_con(s@.skip(j), p@),
        decreases s.len() - i,
    {
        if empieza_en(s, i, p) {
            proof {
                lema_primera_ocurrencia(s@, p@, i as int);
            }
            let a = tramo(s, 0, i);
            let b = tramo(s, i + p.len(), s.len());
            assert(a@ =~= s@.take(i as int));
            assert(b@ =~= s@.skip(i + p.len()));
            return Some((a, b));
        }
        i = i + 1;
    }
    proof {
        lema_primera_ocurrencia(s@, p@, i as int);
    }
    if empieza_en(s, i, p) {
        let a = tramo(s, 0, i);
        assert(a@ =~= s@.take(i as int));
        assert(s@.skip(i + p.len()) =~= Seq::<char>::empty());
        return Some((a, Vec::new()));
    }
    None
}

/// Position of the first `c` in `s`, or -1.
pub open spec fn indice_de(s: Seq<char>, c: char) -> int
    decreases s.len(),
{
    if s.len() == 0 {
        -1
    } else if s[0] == c {
        0
    } else {
        let r = indice_de(s.drop_first(), c);
        if r < 0 {
            -1
        } else {
            r + 1
        }
    }
}

pub proof fn lema_indice_de(s: Seq<char>, c: char)
    ensures
        -1 <= indice_de(s, c) < s.len(),
        indice_de(s, c) >= 0 ==> s[indice_de(s, c)] == c,
        forall|j: int| 0 <= j < s.len() && (indice_de(s, c) < 0 || j < indice_de(s, c)) ==> s[j]
            != c,
    decreases s.len(),
{
    if s.len() > 0 && s[0] != c {
        lema_indice_de(s.drop_first(), c);
        assert forall|j: int|
            0 <= j < s.len() && (indice_de(s, c) < 0 || j < indice_de(s, c)) implies s[j]
            != c by {
            if j > 0 {
                assert(s[j] == s.drop_first()[j - 1]);
            }
        }
    }
}

/// `str::find` with a character pattern.
pub fn indice_de_exec(s: &Vec<char>, c: char) -> (r: Option<usize>)
    ensures
        match r {
            Some(i) => i == indice_de(s@, c),
            None => indice_de(s@, c) == -1,
        },
{
    proof {
        lema_indice_de(s@, c);
    }
    let mut i: usize = 0;
    while i < s.len()
        invariant
            i <= s.len(),
            forall|j: int| 0 <= j < i ==> s@[j] != c,
            -1 <= indice_de(s@, c) < s.len(),
            indice_de(s@, c) >= 0 ==> s@[indice_de(s@, c)] == c,
            forall|j: int|
                0 <= j < s.len() && (indice_de(s@, c) < 0 || j < indice_de(s@, c)) ==> s@[j] != c,
        decreases s.len() - i,
    {
        if s[i] == c {
            return Some(i);
        }
        i = i + 1;
    }
    None
}

/// Characters `a..b` of `s`.
pub fn tramo(s: &Vec<char>, a: usize, b: usize) -> (r: Vec<char>)
    requires
        a <= b <= s.len(),
    ensures
        r@ == s@.subrange(a as int, b as int),
{
    let mut r: Vec<char> = Vec::new();
    let mut k: usize = a;
    while k < b
        invariant
            a <= k <= b <= s.len(),
            r@ == s@.subrange(a as int, k as int),
        decreases b - k,
    {
        r.push(s[k]);
        k = k + 1;
        assert(r@ =~= s@.subrange(a as int, k as int));
    }
    r
}

/// Whether two character sequences are equal.
pub fn iguales(a: &Vec<char>, b: &Vec<char>) -> (r: bool)
    ensures
        r == (a@ == b@),
{
    if a.len() != b.len() {
        return false;
    }
    let mut k: usize = 0;
    while k < a.len()
        invariant
            a.len() == b.len(),
            k <= a.len(),
            forall|j: int| 0 <= j < k ==> a@[j] == b@[j],
        decreases a.len() - k,
    {
        if a[k] != b[k] {
            return false;
        }
        k = k + 1;
    }
    assert(a@ =~= b@);
    true
}


// ---------------------------------------------------------------- words

/// The pieces of `s` between whitespace characters (`str::split` with
/// `char::is_whitespace`), empty pieces included.
pub open spec fn partir_espacios(s: Seq<char>) -> Seq<Seq<char>>
    decreases s.len(),
{
    if s.len() == 0 {
        seq![Seq::<char>::empty()]
    } else if es_espacio(s[0]) {
        seq![Seq::<char>::empty()] + partir_espacios(s.drop_first())
    } else {
        let r = partir_espacios(s.drop_first());
        r.update(0, seq![s[0]] + r[0])
    }
}

pub open spec fn no_vacia(x: Seq<char>) -> bool {
    x.len() > 0
}

/// `str::split_whitespace`: the non-empty pieces between whitespace.
pub open spec fn palabras(s: Seq<char>) -> Seq<Seq<char>> {
    partir_espacios(s).filter(|x: Seq<char>| no_vacia(x))
}

/// `x` holds no whitespace character.
pub open spec fn sin_espacios(x: Seq<char>) -> bool {
    forall|j: int| 0 <= j < x.len() ==> !es_espacio(#[trigger] x[j])
}

pub proof fn lema_partir_espacios(s: Seq<char>)
    ensures
        partir_espacios(s).len() >= 1,
        forall|k: int|
            0 <= k < partir_espacios(s).len() ==> sin_espacios(#[trigger] partir_espacios(s)[k]),
    decreases s.len(),
{
    if s.len() > 0 {
        lema_partir_espacios(s.drop_first());
        let r = partir_espacios(s.drop_first());
        if !es_espacio(s[0]) {
            assert forall|k: int|
                0 <= k < partir_espacios(s).len() implies sin_espacios(
                #[trigger] partir_espacios(s)[k],
            ) by {
                if k == 0 {
                    let x = seq![s[0]] + r[0];
                    assert(sin_espacios(r[0]));
                    assert forall|j: int| 0 <= j < x.len() implies !es_espacio(#[trigger] x[j]) by {
                        if j > 0 {
                            assert(x[j] == r[0][j - 1]);
                        }
                    }
                }
            }
        } else {
            assert forall|k: int|
                0 <= k < partir_espacios(s).len() implies sin_espacios(
                #[trigger] partir_espacios(s)[k],
            ) by {
                if k > 0 {
                    assert(partir_espacios(s)[k] == r[k - 1]);
                }
            }
        }
    }
}

/// Every word is non-empty and free of whitespace.
pub proof fn lema_palabras(s: Seq<char>)
    ensures
        forall|k: int|
            0 <= k < palabras(s).len() ==> no_vacia(#[trigger] palabras(s)[k]) && sin_espacios(
                palabras(s)[k],
            ),
{
    lema_partir_espacios(s);
    let f = |x: Seq<char>| no_vacia(x);
    assert forall|k: int| 0 <= k < palabras(s).len() implies no_vacia(
        #[trigger] palabras(s)[k],
    ) && sin_espacios(palabras(s)[k]) by {
        partir_espacios(s).lemma_filter_pred(f, k);
        assert(palabras(s).contains(palabras(s)[k]));
        partir_espacios(s).lemma_filter_contains_rev(f, palabras(s)[k]);
        let i: int = choose|i: int|
            0 <= i < partir_espacios(s).len() && partir_espacios(s)[i] == palabras(s)[k];
        assert(sin_espacios(partir_espacios(s)[i]));
    }
}

/// `str::split_whitespace`.
pub fn palabras_exec(s: &Vec<char>) -> (r: Vec<Vec<char>>)
    ensures
        r@.map_values(|x: Vec<char>| x@) == palabras(s@),
{
    let mut piezas: Vec<Vec<char>> = Vec::new();
    let mut actual: Vec<char> = Vec::new();
    let mut i: usize = 0;
    proof {
        assert(s@.skip(0) =~= s@);
        lema_partir_espacios(s@);
        let vacia = piezas@.map_values(|x: Vec<char>| x@);
        assert(vacia =~= Seq::<Seq<char>>::empty());
        assert(pegar(vacia.push(actual@), partir_espacios(s@)) =~~= partir_espacios(s@));
    }
    while i < s.len()
        invariant
            i <= s.len(),
            partir_espacios(s@) == pegar(
                piezas@.map_values(|x: Vec<char>| x@).push(actual@),
                partir_espacios(s@.skip(i as int)),
            ),
        decreases s.len() - i,
    {
        let ghost antes = piezas@.map_values(|x: Vec<char>| x@);
        let ghost resto = s@.skip(i as int);
        let ghost r2 = partir_espacios(resto.drop_first());
        proof {
            lema_partir_espacios(resto.drop_first());
            assert(resto.drop_first() =~= s@.skip(i + 1));
            assert(resto[0] == s@[i as int]);
        }
        let ghost viejo = actual@;
        if es_espacio_exec(s[i]) {
            piezas.push(actual);
            actual = Vec::new();
            i = i + 1;
            proof {
                let nuevo = piezas@.map_values(|x: Vec<char>| x@);
                assert(nuevo =~= antes.push(viejo));
                assert(pegar(antes.push(viejo), partir_espacios(resto)) =~= pegar(
                    nuevo.push(actual@),
                    r2,
                ));
            }
        } else {
            actual.push(s[i]);
            i = i + 1;
            proof {
                assert(piezas@.map_values(|x: Vec<char>| x@) == antes);
                assert(partir_espacios(resto) == r2.update(0, seq![resto[0]] + r2[0]));
                assert(pegar(antes.push(viejo), partir_espacios(resto)) =~~= pegar(
                    antes.push(actual@),
                    r2,
                ));
            }
        }
    }
    let ghost antes = piezas@.map_values(|x: Vec<char>| x@);
    proof {
        assert(s@.skip(i as int) =~= Seq::<char>::empty());
    }
    piezas.push(actual);
    let ghost todas = piezas@.map_values(|x: Vec<char>| x@);
    proof {
        assert(todas =~= pegar(antes.push(actual@), partir_espacios(Seq::<char>::empty())));
    }
    let mut r: Vec<Vec<char>> = Vec::new();
    let mut k: usize = 0;
    while k < piezas.len()
        invariant
            k <= piezas.len(),
            todas == piezas@.map_values(|x: Vec<char>| x@),
            r@.map_values(|x: Vec<char>| x@) == todas.take(k as int).filter(
                |x: Seq<char>| no_vacia(x),
            ),
        decreases piezas.len() - k,
    {
        let ghost previo = r@.map_values(|x: Vec<char>| x@);
        proof {
            assert(todas.take(k + 1) =~= todas.take(k as int).push(todas[k as int]));
            todas.take(k as int).lemma_filter_push(todas[k as int], |x: Seq<char>| no_vacia(x));
        }
        if piezas[k].len() > 0 {
            r.push(piezas[k].clone());
            assert(r@.map_values(|x: Vec<char>| x@) =~= previo.push(todas[k as int]));
        }
        k = k + 1;
    }
    assert(todas.take(piezas.len() as int) =~= todas);
    r
}

/// `[T]::join`: the pieces with `sep` between consecutive ones.
pub open spec fn unir(partes: Seq<Seq<char>>, sep: Seq<char>) -> Seq<char>
    decreases partes.len(),
{
    if partes.len() == 0 {
        Seq::<char>::empty()
    } else if partes.len() == 1 {
        partes[0]
    } else {
        unir(partes.drop_last(), sep) + sep + partes.last()
    }
}

/// `[T]::join`.
pub fn unir_exec(partes: &Vec<Vec<char>>, sep: &Vec<char>) -> (r: Vec<char>)
    ensures
        r@ == unir(partes@.map_values(|x: Vec<char>| x@), sep@),
{
    let ghost vs = partes@.map_values(|x: Vec<char>| x@);
    let mut r: Vec<char> = Vec::new();
    let mut k: usize = 0;
    while k < partes.len()
        invariant
            k <= partes.len(),
            vs == partes@.map_values(|x: Vec<char>| x@),
            r@ == unir(vs.take(k as int), sep@),
        decreases partes.len() - k,
    {
        let ghost previo = r@;
        if k > 0 {
            r.extend_from_slice(sep.as_slice());
        }
        r.extend_from_slice(partes[k].as_slice());
        proof {
            assert(vs.take(k + 1).drop_last() =~= vs.take(k as int));
            if k == 0 {
                assert(r@ =~= vs[0]);
            } else {
                assert(r@ =~= previo + sep@ + vs[k as int]);
            }
        }
        k = k + 1;
    }
    assert(vs.take(partes.len() as int) =~= vs);
    r
}

/// The first character of a join is that of the first piece, the last
/// that of the last piece, when both are non-empty.
pub proof fn lema_unir_extremos(partes: Seq<Seq<char>>, sep: Seq<char>)
    requires
        partes.len() >= 1,
        partes[0].len() > 0,
        partes.last().len() > 0,
    ensures
        unir(partes, sep).len() > 0,
        unir(partes, sep)[0] == partes[0][0],
        unir(partes, sep).last() == partes.last().last(),
    decreases partes.len(),
{
    if partes.len() > 1 {
        let r = partes.drop_last();
        if r.last().len() > 0 {
            lema_unir_extremos(r, sep);
        } else {
            lema_unir_primero(r, sep);
        }
    }
}

proof fn lema_unir_primero(partes: Seq<Seq<char>>, sep: Seq<char>)
    requires
        partes.len() >= 1,
        partes[0].len() > 0,
    ensures
        unir(partes, sep).len() > 0,
        unir(partes, sep)[0] == partes[0][0],
    decreases partes.len(),
{
    if partes.len() > 1 {
        lema_unir_primero(partes.drop_last(), sep);
    }
}

// ---------------------------------------------------------------- order

/// Lexicographic comparison by character (the order of `str::cmp`, since
/// UTF-8 preserves the order of code points): -1, 0 or 1.
pub open spec fn comparar(a: Seq<char>, b: Seq<char>) -> int
    decreases a.len(),
{
    if a.len() == 0 && b.len() == 0 {
        0
    } else if a.len() == 0 {
        -1
    } else if b.len() == 0 {
        1
    } else if a[0] < b[0] {
        -1
    } else if a[0] > b[0] {
        1
    } else {
        comparar(a.drop_first(), b.drop_first())
    }
}

/// Lexicographic comparison by character.
pub fn comparar_exec(a: &Vec<char>, b: &Vec<char>) -> (r: i8)
    ensures
        r as int == comparar(a@, b@),
{
    let mut k: usize = 0;
    while k < a.len() && k < b.len()
        invariant
            k <= a.len(),
            k <= b.len(),
            comparar(a@, b@) == comparar(a@.skip(k as int), b@.skip(k as int)),
        decreases a.len() - k,
    {
        let x = a[k];
        let y = b[k];
        proof {
            assert(a@.skip(k as int)[0] == a@[k as int]);
            assert(b@.skip(k as int)[0] == b@[k as int]);
        }
        if x < y {
            return -1;
        }
        if x > y {
            return 1;
        }
        proof {
            assert(a@.skip(k as int).drop_first() =~= a@.skip(k + 1));
            assert(b@.skip(k as int).drop_first() =~= b@.skip(k + 1));
        }
        k = k + 1;
    }
    if k < a.len() {
        1
    } else if k < b.len() {
        -1
    } else {
        0
    }
}

pub proof fn lema_comparar_antisimetria(a: Seq<char>, b: Seq<char>)
    ensures
        comparar(a, b) == -comparar(b, a),
        -1 <= comparar(a, b) <= 1,
        comparar(a, b) == 0 <==> a == b,
    decreases a.len(),
{
    if a.len() > 0 && b.len() > 0 && a[0] == b[0] {
        lema_comparar_antisimetria(a.drop_first(), b.drop_first());
        if a.drop_first() == b.drop_first() {
            assert(a =~= seq![a[0]] + a.drop_first());
            assert(b =~= seq![b[0]] + b.drop_first());
        }
    } else if a.len() == 0 && b.len() == 0 {
        assert(a =~= b);
    }
}

pub proof fn lema_comparar_transitiva(a: Seq<char>, b: Seq<char>, c: Seq<char>)
    requires
        comparar(a, b) <= 0,
        comparar(b, c) <= 0,
    ensures
        comparar(a, c) <= 0,
    decreases a.len(),
{
    if a.len() > 0 && b.len() > 0 && c.len() > 0 && a[0] == b[0] && b[0] == c[0] {
        lema_comparar_transitiva(a.drop_first(), b.drop_first(), c.drop_first());
    }
}

// ---------------------------------------------------------------- numbers

pub open spec fn es_digito(c: char) -> bool {
    48 <= (c as u32) <= 57
}

pub open spec fn todos_digitos(d: Seq<char>) -> bool {
    forall|j: int| 0 <= j < d.len() ==> es_digito(#[trigger] d[j])
}

/// The number written by the decimal digits `d`.
pub open spec fn valor_digitos(d: Seq<char>) -> int
    decreases d.len(),
{
    if d.len() == 0 {
        0
    } else {
        valor_digitos(d.drop_last()) * 10 + ((d.last() as u32) - 48)
    }
}

/// `str::parse::<i32>`: an optional `+` or `-` followed by at least one
/// decimal digit and nothing else, whose value fits in an `i32`.
pub open spec fn entero_i32(s: Seq<char>) -> Option<int> {
    let negativo = s.len() > 0 && s[0] == '-';
    let d = if s.len() > 0 && (s[0] == '-' || s[0] == '+') {
        s.drop_first()
    } else {
        s
    };
    let v = if negativo {
        -valor_digitos(d)
    } else {
        valor_digitos(d)
    };
    if d.len() > 0 && todos_digitos(d) && i32::MIN <= v <= i32::MAX {
        Some(v)
    } else {
        None
    }
}

pub(crate) proof fn lema_valor_creciente(d: Seq<char>, k: int)
    requires
        0 <= k <= d.len(),
        todos_digitos(d),
    ensures
        valor_digitos(d.take(k)) <= valor_digitos(d),
        valor_digitos(d) >= 0,
    decreases d.len(),
{
    if d.len() > 0 {
        assert(todos_digitos(d.drop_last()));
        if k == d.len() {
            assert(d.take(k) =~= d);
            lema_valor_creciente(d.drop_last(), 0);
        } else {
            lema_valor_creciente(d.drop_last(), k);
            assert(d.drop_last().take(k) =~= d.take(k));
        }
    } else {
        assert(d.take(k) =~= d);
    }
}

proof fn lema_paso_digitos(d: Seq<char>, j: int)
    requires
        0 <= j < d.len(),
        todos_digitos(d.take(j)),
        es_digito(d[j]),
    ensures
        valor_digitos(d.take(j + 1)) == valor_digitos(d.take(j)) * 10 + ((d[j] as u32) - 48),
        todos_digitos(d.take(j + 1)),
{
    assert(d.take(j + 1).drop_last() =~= d.take(j));
    assert forall|i: int| 0 <= i < j + 1 implies es_digito(#[trigger] d.take(j + 1)[i]) by {
        if i < j {
            assert(d.take(j + 1)[i] == d.take(j)[i]);
        }
    }
}

/// The value of the digits `d` with the given sign, when it is an `i32`.
pub open spec fn entero_con_signo(d: Seq<char>, negativo: bool) -> Option<int> {
    let v = if negativo {
        -valor_digitos(d)
    } else {
        valor_digitos(d)
    };
    if d.len() > 0 && todos_digitos(d) && i32::MIN <= v <= i32::MAX {
        Some(v)
    } else {
        None
    }
}

proof fn lema_entero_i32(s: Seq<char>, inicio: int)
    requires
        inicio == (if s.len() > 0 && (s[0] == '-' || s[0] == '+') {
            1int
        } else {
            0int
        }),
    ensures
        entero_i32(s) == entero_con_signo(s.skip(inicio), s.len() > 0 && s[0] == '-'),
{
    assert(s.skip(0) =~= s);
    assert(s.len() > 0 ==> s.skip(1) =~= s.drop_first());
}

/// `str::parse::<i32>`.
pub fn entero_i32_exec(s: &Vec<char>) -> (r: Option<i32>)
    ensures
        match r {
            Some(v) => entero_i32(s@) == Some(v as int),
            None => entero_i32(s@) is None,
        },
{
    let negativo = s.len() > 0 && s[0] == '-';
    let inicio: usize = if s.len() > 0 && (s[0] == '-' || s[0] == '+') {
        1
    } else {
        0
    };
    let ghost d = s@.skip(inicio as int);
    proof {
        lema_entero_i32(s@, inicio as int);
    }
    if inicio >= s.len() {
        return None;
    }
    let mut v: i64 = 0;
    let mut k: usize = inicio;
    assert(d.take(0) =~= Seq::<char>::empty());
    while k < s.len()
        invariant
            inicio <= k <= s.len(),
            d == s@.skip(inicio as int),
            entero_i32(s@) == entero_con_signo(d, negativo),
            todos_digitos(d.take(k - inicio)),
            v == valor_digitos(d.take(k - inicio)),
            0 <= v <= 0x8000_0000,
        decreases s.len() - k,
    {
        let c = s[k];
        let n: u32 = c as u32;
        assert(d[k - inicio] == c);
        if n < 48 || n > 57 {
            assert(!todos_digitos(d));
            return None;
        }
        proof {
            lema_paso_digitos(d, k - inicio);
        }
        v = v * 10 + (n - 48) as i64;
        k = k + 1;
        if v > 0x8000_0000 {
            proof {
                if todos_digitos(d) {
                    lema_valor_creciente(d, k - inicio);
                }
            }
            return None;
        }
    }
    assert(d.take(k - inicio) =~= d);
    if negativo {
        Some((0 - v) as i32)
    } else if v <= 0x7fff_ffff {
        Some(v as i32)
    } else {
        None
    }
}

// ---------------------------------------------------------------- std

/// What `str::to_uppercase` returns for a string: its characters mapped
/// by the Unicode uppercase mapping.
pub uninterp spec fn mayusculas(s: Seq<char>) -> Seq<char>;

/// Every character is ASCII.
pub open spec fn es_ascii(s: Seq<char>) -> bool {
    forall|j: int| 0 <= j < s.len() ==> (#[trigger] s[j] as u32) < 128
}

/// The uppercase of an ASCII character: `a`..`z` become `A`..`Z`, every
/// other character stays.
pub open spec fn mayuscula_ascii(c: char) -> char {
    if 'a' <= c && c <= 'z' {
        ((c as u32) - 32) as char
    } else {
        c
    }
}

/// Calls `str::to_uppercase`. Its result depends on the string alone
/// and is named `mayusculas`. Of an ASCII string, where the Unicode
/// uppercase mapping is that of ASCII, it states the result: `a`..`z`
/// become `A`..`Z` and every other character stays; nothing more of it
/// is stated here.
#[verifier::external_body]
pub(crate) fn mayusculas_exec(s: &str) -> (r: String)
    ensures
        r@ == mayusculas(s@),
        es_ascii(s@) ==> r@ == s@.map_values(|c: char| mayuscula_ascii(c)),
{
    s.to_uppercase()
}

/// What the `Debug` formatting of a string slice (`format!("{:?}", s)`)
/// writes: the text between double quotes, with escapes.
pub uninterp spec fn texto_depurado(s: Seq<char>) -> Seq<char>;

/// Calls `format!("{:?}", s)` on a string slice. The result depends on
/// the string alone and is named `texto_depurado`.
#[verifier::external_body]
pub(crate) fn texto_depurado_exec(s: &str) -> (r: String)
    ensures
        r@ == texto_depurado(s@),
{
    format!("{:?}", s)
}

} // verus!
