//! How a `WHERE` clause without brackets is cut into tokens.
use vstd::prelude::*;
use crate::leyes::{
    alternan, comparacion, conector, es_comparacion, es_conector, ley_forma_where,
    lema_partir_tras_separador, sin_caracter,
};
use crate::parciar::{fichas, predicado};
use crate::texto::{
    empieza_con, es_espacio, lema_partir_no_vacio, lema_sin_fin, lema_sin_inicio, partir, recortar,
    reemplazar,
};

verus! {

broadcast use vstd::seq_lib::group_seq_properties;

/// Splitting `x + y` at `c`, when `x` holds no `c`: the pieces of `y`,
/// with `x` before the first one.
proof fn lema_partir_prefijo(x: Seq<char>, y: Seq<char>, c: char)
    requires
        sin_caracter(x, c),
    ensures
        partir(x + y, seq![c]) == partir(y, seq![c]).update(0, x + partir(y, seq![c])[0]),
    decreases x.len(),
{
    let p = seq![c];
    crate::texto::lema_partir_no_vacio(y, p);
    if x.len() == 0 {
        assert(x + y =~= y);
        assert(partir(y, p).update(0, x + partir(y, p)[0]) =~= partir(y, p));
    } else {
        let s = x + y;
        let x1 = x.drop_first();
        assert(s[0] == x[0]);
        assert(s.take(1)[0] == s[0]);
        assert(!empieza_con(s, p));
        assert(sin_caracter(x1, c)) by {
            assert forall|j: int| 0 <= j < x1.len() implies #[trigger] x1[j] != c by {
                assert(x1[j] == x[j + 1]);
            }
        }
        lema_partir_prefijo(x1, y, c);
        assert(s.drop_first() =~= x1 + y);
        crate::texto::lema_partir_no_vacio(x1 + y, p);
        assert(seq![x[0]] + x1 =~= x);
        let r = partir(x1 + y, p);
        let py = partir(y, p);
        assert(r[0] == x1 + py[0]);
        assert(seq![s[0]] + r[0] =~= x + py[0]);
        assert(r.update(0, seq![s[0]] + r[0]) =~= partir(y, p).update(0, x + partir(y, p)[0]));
    }
}

/// A prefix that holds no first character of the pattern is left as it is
/// by a replacement.
proof fn lema_reemplazar_prefijo(x: Seq<char>, resto: Seq<char>, de: Seq<char>, a: Seq<char>)
    requires
        de.len() > 0,
        sin_caracter(x, de[0]),
    ensures
        reemplazar(x + resto, de, a) == x + reemplazar(resto, de, a),
    decreases x.len(),
{
    if x.len() == 0 {
        assert(x + resto =~= resto);
    } else {
        let s = x + resto;
        let x1 = x.drop_first();
        assert(s[0] == x[0]);
        if de.len() <= s.len() {
            assert(s.take(de.len() as int)[0] == s[0]);
        }
        assert(!empieza_con(s, de));
        assert(sin_caracter(x1, de[0])) by {
            assert forall|j: int| 0 <= j < x1.len() implies #[trigger] x1[j] != de[0] by {
                assert(x1[j] == x[j + 1]);
            }
        }
        lema_reemplazar_prefijo(x1, resto, de, a);
        assert(s.drop_first() =~= x1 + resto);
        assert(seq![x[0]] + (x1 + reemplazar(resto, de, a)) =~= x + reemplazar(resto, de, a));
    }
}

/// A replacement adds no character that neither the text nor the
/// replacement holds.
proof fn lema_reemplazar_sin(s: Seq<char>, de: Seq<char>, a: Seq<char>, c: char)
    requires
        sin_caracter(s, c),
        sin_caracter(a, c),
    ensures
        sin_caracter(reemplazar(s, de, a), c),
    decreases s.len(),
{
    if s.len() > 0 {
        if de.len() > 0 && empieza_con(s, de) {
            let t = s.skip(de.len() as int);
            assert(sin_caracter(t, c)) by {
                assert forall|j: int| 0 <= j < t.len() implies #[trigger] t[j] != c by {
                    assert(t[j] == s[j + de.len()]);
                }
            }
            lema_reemplazar_sin(t, de, a, c);
            let r = a + reemplazar(t, de, a);
            assert forall|j: int| 0 <= j < r.len() implies #[trigger] r[j] != c by {
                if j >= a.len() {
                    assert(r[j] == reemplazar(t, de, a)[j - a.len()]);
                }
            }
        } else {
            let t = s.drop_first();
            assert(sin_caracter(t, c)) by {
                assert forall|j: int| 0 <= j < t.len() implies #[trigger] t[j] != c by {
                    assert(t[j] == s[j + 1]);
                }
            }
            lema_reemplazar_sin(t, de, a, c);
            let r = seq![s[0]] + reemplazar(t, de, a);
            assert forall|j: int| 0 <= j < r.len() implies #[trigger] r[j] != c by {
                if j >= 1 {
                    assert(r[j] == reemplazar(t, de, a)[j - 1]);
                }
            }
        }
    }
}


/// The first piece of a split with at least two pieces is followed by the
/// separator and by the text whose pieces are the remaining ones.
proof fn lema_primera_pieza(u: Seq<char>, c: char)
    requires
        partir(u, seq![c]).len() >= 2,
    ensures
        ({
            let ps = partir(u, seq![c]);
            let n = ps[0].len() as int;
            &&& n + 1 <= u.len()
            &&& u == ps[0] + seq![c] + u.skip(n + 1)
            &&& partir(u.skip(n + 1), seq![c]) == ps.skip(1)
        }),
    decreases u.len(),
{
    let p = seq![c];
    if u.len() == 0 {
    } else if empieza_con(u, p) {
        assert(u.take(1)[0] == u[0]);
        assert(u =~= Seq::<char>::empty() + p + u.skip(1));
        assert(partir(u, p) =~= seq![Seq::<char>::empty()] + partir(u.skip(1), p));
        assert(partir(u, p).skip(1) =~= partir(u.skip(1), p));
    } else {
        let u1 = u.drop_first();
        let r = partir(u1, p);
        lema_partir_no_vacio(u1, p);
        assert(partir(u, p) == r.update(0, seq![u[0]] + r[0]));
        assert(r.len() >= 2);
        lema_primera_pieza(u1, c);
        let m = r[0].len() as int;
        assert(u1.skip(m + 1) =~= u.skip(m + 2));
        assert(u =~= (seq![u[0]] + r[0]) + p + u.skip(m + 2));
        assert(partir(u, p).skip(1) =~= r.skip(1));
    }
}

/// The two connectors.
pub open spec fn es_conector_exacto(w: Seq<char>) -> bool {
    w == "AND"@ || w == "OR"@
}

/// A text cut by `|` into pieces that alternate text and connector,
/// beginning and ending with text.
pub open spec fn cortado(t: Seq<char>) -> bool {
    let ps = partir(t, seq!['|']);
    &&& ps.len() % 2 == 1
    &&& forall|k: int| 0 <= k < ps.len() && k % 2 == 1 ==> es_conector_exacto(#[trigger] ps[k])
}

proof fn lema_cortado_prefijo(x: Seq<char>, y: Seq<char>)
    requires
        sin_caracter(x, '|'),
    ensures
        cortado(x + y) == cortado(y),
{
    lema_partir_prefijo(x, y, '|');
    lema_partir_no_vacio(y, seq!['|']);
    let a = partir(x + y, seq!['|']);
    let b = partir(y, seq!['|']);
    assert forall|k: int| 1 <= k < a.len() implies a[k] == b[k] by {}
    if cortado(y) {
        assert forall|k: int| 0 <= k < a.len() && k % 2 == 1 implies es_conector_exacto(#[trigger] a[k]) by {
            assert(es_conector_exacto(b[k]));
        }
    }
    if cortado(x + y) {
        assert forall|k: int| 0 <= k < b.len() && k % 2 == 1 implies es_conector_exacto(#[trigger] b[k]) by {
            assert(es_conector_exacto(a[k]));
        }
    }
}

/// `|K|` followed by a cut text is cut, for a connector `K`.
proof fn lema_cortado_conector(k: Seq<char>, r: Seq<char>)
    requires
        es_conector_exacto(k),
        cortado(r),
    ensures
        cortado(seq!['|'] + k + seq!['|'] + r),
{
    reveal_strlit("AND");
    reveal_strlit("OR");
    let p = seq!['|'];
    assert(sin_caracter(k, '|'));
    let t = seq!['|'] + k + seq!['|'] + r;
    assert(t =~= Seq::<char>::empty() + p + (k + p + r));
    lema_partir_tras_separador(Seq::<char>::empty(), '|', k + p + r);
    lema_partir_tras_separador(k, '|', r);
    let a = partir(t, p);
    let b = partir(r, p);
    assert(a =~= seq![Seq::<char>::empty(), k] + b);
    assert forall|j: int| 0 <= j < a.len() && j % 2 == 1 implies es_conector_exacto(#[trigger] a[j]) by {
        if j >= 2 {
            assert(a[j] == b[j - 2]);
            assert(es_conector_exacto(b[j - 2]));
        }
    }
}

proof fn lema_texto_sin(s: Seq<char>, n: int, c: char)
    requires
        sin_caracter(s, c),
        0 <= n <= s.len(),
    ensures
        sin_caracter(s.skip(n), c),
{
    assert forall|j: int| 0 <= j < s.skip(n).len() implies #[trigger] s.skip(n)[j] != c by {
        assert(s.skip(n)[j] == s[j + n]);
    }
}

/// Replacing ` AND ` by `|AND|` in a text without `|` gives a cut text.
proof fn lema_primera_pasada(s: Seq<char>)
    requires
        sin_caracter(s, '|'),
    ensures
        cortado(reemplazar(s, " AND "@, "|AND|"@)),
    decreases s.len(),
{
    reveal_strlit(" AND ");
    reveal_strlit("|AND|");
    reveal_strlit("AND");
    let de = " AND "@;
    let a = "|AND|"@;
    if s.len() == 0 {
        assert(reemplazar(s, de, a) == Seq::<char>::empty());
        assert(partir(Seq::<char>::empty(), seq!['|']) == seq![Seq::<char>::empty()]);
    } else if empieza_con(s, de) {
        let t = s.skip(5);
        lema_texto_sin(s, 5, '|');
        lema_primera_pasada(t);
        let r = reemplazar(t, de, a);
        assert(a =~= seq!['|'] + "AND"@ + seq!['|']);
        assert(es_conector_exacto("AND"@));
        lema_cortado_conector("AND"@, r);
        assert(reemplazar(s, de, a) =~= seq!['|'] + "AND"@ + seq!['|'] + r);
    } else {
        let t = s.drop_first();
        lema_texto_sin(s, 1, '|');
        assert(s.skip(1) =~= t);
        lema_primera_pasada(t);
        assert(s[0] != '|');
        assert(sin_caracter(seq![s[0]], '|'));
        lema_cortado_prefijo(seq![s[0]], reemplazar(t, de, a));
    }
}

/// Replacing ` OR ` by `|OR|` in a cut text gives a cut text.
proof fn lema_segunda_pasada(t: Seq<char>)
    requires
        cortado(t),
    ensures
        cortado(reemplazar(t, " OR "@, "|OR|"@)),
    decreases t.len(),
{
    reveal_strlit(" OR ");
    reveal_strlit("|OR|");
    reveal_strlit("OR");
    reveal_strlit("AND");
    let de = " OR "@;
    let a = "|OR|"@;
    let p = seq!['|'];
    if t.len() == 0 {
        assert(reemplazar(t, de, a) == Seq::<char>::empty());
    } else if empieza_con(t, de) {
        let t1 = t.skip(4);
        assert(sin_caracter(de, '|'));
        assert(t =~= de + t1);
        lema_cortado_prefijo(de, t1);
        lema_segunda_pasada(t1);
        let r = reemplazar(t1, de, a);
        assert(a =~= seq!['|'] + "OR"@ + seq!['|']);
        assert(es_conector_exacto("OR"@));
        lema_cortado_conector("OR"@, r);
        assert(reemplazar(t, de, a) =~= seq!['|'] + "OR"@ + seq!['|'] + r);
    } else if t[0] != '|' {
        let t1 = t.drop_first();
        assert(sin_caracter(seq![t[0]], '|'));
        assert(t =~= seq![t[0]] + t1);
        lema_cortado_prefijo(seq![t[0]], t1);
        lema_segunda_pasada(t1);
        lema_cortado_prefijo(seq![t[0]], reemplazar(t1, de, a));
    } else {
        let t1 = t.drop_first();
        assert(t.take(1) =~= p);
        assert(partir(t, p) =~= seq![Seq::<char>::empty()] + partir(t1, p)) by {
            assert(t.skip(1) =~= t1);
        }
        lema_partir_no_vacio(t1, p);
        let ps = partir(t, p);
        assert(ps.len() >= 3);
        let k = ps[1];
        assert(es_conector_exacto(k));
        assert(partir(t1, p)[0] == k);
        lema_primera_pieza(t1, '|');
        let t2 = t1.skip(k.len() as int + 1);
        assert(partir(t2, p) =~= ps.skip(2));
        assert(cortado(t2)) by {
            let q = partir(t2, p);
            assert forall|j: int| 0 <= j < q.len() && j % 2 == 1 implies es_conector_exacto(#[trigger] q[j]) by {
                assert(q[j] == ps[j + 2]);
            }
        }
        lema_segunda_pasada(t2);
        let pre = seq!['|'] + k + seq!['|'];
        assert(t =~= pre + t2);
        assert(sin_caracter(pre, ' '));
        assert(de[0] == ' ');
        lema_reemplazar_prefijo(pre, t2, de, a);
        lema_cortado_conector(k, reemplazar(t2, de, a));
    }
}

/// A text that holds no first character of the pattern is left as it is
/// by a replacement.
proof fn lema_reemplazar_nada(s: Seq<char>, de: Seq<char>, a: Seq<char>)
    requires
        de.len() > 0,
        sin_caracter(s, de[0]),
    ensures
        reemplazar(s, de, a) == s,
{
    lema_reemplazar_prefijo(s, Seq::empty(), de, a);
    assert(s + Seq::<char>::empty() =~= s);
}

/// A `WHERE` clause without brackets and without `|` is cut into tokens
/// that alternate text and connector (`AND` or `OR`), beginning and ending
/// with text.
pub proof fn ley_cortes_where(raw: Seq<char>)
    requires
        sin_caracter(raw, '('),
        sin_caracter(raw, ')'),
        sin_caracter(raw, '|'),
    ensures
        fichas(raw).len() % 2 == 1,
        forall|k: int| 0 <= k < fichas(raw).len() && k % 2 == 1 ==> es_conector_exacto(#[trigger] fichas(raw)[k]),
{
    reveal_strlit(" AND ");
    reveal_strlit("|AND|");
    reveal_strlit(" OR ");
    reveal_strlit("|OR|");
    reveal_strlit("(");
    reveal_strlit(")");
    reveal_strlit("|(|");
    reveal_strlit("|)|");
    reveal_strlit("|");
    let t1 = reemplazar(raw, " AND "@, "|AND|"@);
    let t2 = reemplazar(t1, " OR "@, "|OR|"@);
    lema_primera_pasada(raw);
    lema_segunda_pasada(t1);
    assert(sin_caracter("|AND|"@, '(') && sin_caracter("|AND|"@, ')'));
    assert(sin_caracter("|OR|"@, '(') && sin_caracter("|OR|"@, ')'));
    lema_reemplazar_sin(raw, " AND "@, "|AND|"@, '(');
    lema_reemplazar_sin(raw, " AND "@, "|AND|"@, ')');
    lema_reemplazar_sin(t1, " OR "@, "|OR|"@, '(');
    lema_reemplazar_sin(t1, " OR "@, "|OR|"@, ')');
    assert("("@[0] == '(');
    lema_reemplazar_nada(t2, "("@, "|(|"@);
    assert(")"@[0] == ')');
    lema_reemplazar_nada(t2, ")"@, "|)|"@);
    assert("|"@ =~= seq!['|']);
    assert(fichas(raw) == partir(t2, seq!['|']));
}

/// A connector token is read as its connector.
proof fn lema_conector_leido(w: Seq<char>)
    requires
        es_conector_exacto(w),
    ensures
        es_conector(w),
        recortar(w) == w,
{
    reveal_strlit("AND");
    reveal_strlit("OR");
    assert(!es_espacio(w[0]));
    assert(!es_espacio(w[w.len() - 1]));
    lema_sin_inicio(w, 0);
    assert(w.skip(0) =~= w);
    lema_sin_fin(w, w.len() as int);
    assert(w.take(w.len() as int) =~= w);
}

/// A `WHERE` clause without brackets and without `|`, whose text pieces
/// between the connectors ` AND ` and ` OR ` are all comparisons, is
/// parsed into those comparisons in order and those connectors in order:
/// one more comparison than operators.
pub proof fn ley_where_sin_grupos(raw: Seq<char>)
    requires
        sin_caracter(raw, '('),
        sin_caracter(raw, ')'),
        sin_caracter(raw, '|'),
        forall|k: int| 0 <= k < fichas(raw).len() && k % 2 == 0 ==> es_comparacion(#[trigger] fichas(raw)[k]),
    ensures
        ({
            let fs = fichas(raw);
            let p = predicado(raw);
            &&& p.condiciones.len() == p.operadores.len() + 1
            &&& p.condiciones.len() == (fs.len() + 1) / 2
            &&& forall|j: int| 0 <= j < p.condiciones.len() ==> #[trigger] p.condiciones[j] == comparacion(fs[2 * j])
            &&& forall|j: int| 0 <= j < p.operadores.len() ==> #[trigger] p.operadores[j] == conector(fs[2 * j + 1])
            &&& forall|j: int| 0 <= j < p.operadores.len() ==> es_conector_exacto(#[trigger] fs[2 * j + 1])
        }),
{
    ley_cortes_where(raw);
    let fs = fichas(raw);
    assert forall|k: int| 0 <= k < fs.len() && k % 2 == 1 implies es_conector(#[trigger] fs[k]) by {
        lema_conector_leido(fs[k]);
    }
    assert(alternan(fs));
    ley_forma_where(raw);
    let p = predicado(raw);
    assert forall|j: int| 0 <= j < p.operadores.len() implies es_conector_exacto(#[trigger] fs[2 * j + 1]) by {
        assert((2 * j + 1) % 2 == 1);
    }
}

} // verus!
