//! What `ORDER BY` and the column lists mean, stated without the
//! functions that compute them.
use vstd::prelude::*;
use crate::orden::{clave, orden_estable, precede};
use crate::filas::{coincidencias, emparejar, seleccion};
use crate::sql_conditions::Condicion;
use crate::update::{ediciones, ediciones_columna};
use crate::texto::{comparar, recortar};

verus! {

broadcast use vstd::seq_lib::group_seq_properties;

/// `a` comes before `b` in dictionary order: at the first place where they
/// differ `a` has the smaller character, or `a` is a proper prefix of `b`.
pub open spec fn antes_lex(a: Seq<char>, b: Seq<char>) -> bool {
    exists|i: int| #[trigger] difieren_en(a, b, i)
}

/// `a` and `b` agree before place `i`, and there `a` ends while `b` goes
/// on, or `a` has the smaller character.
pub open spec fn difieren_en(a: Seq<char>, b: Seq<char>, i: int) -> bool {
    &&& 0 <= i <= a.len()
    &&& i <= b.len()
    &&& a.take(i) == b.take(i)
    &&& ((i == a.len() && i < b.len()) || (i < a.len() && i < b.len() && a[i] < b[i]))
}

proof fn lema_lex_cola(a: Seq<char>, b: Seq<char>)
    requires
        a.len() > 0,
        b.len() > 0,
        a[0] == b[0],
    ensures
        antes_lex(a, b) == antes_lex(a.drop_first(), b.drop_first()),
{
    let a1 = a.drop_first();
    let b1 = b.drop_first();
    if antes_lex(a, b) {
        let i = choose|i: int| difieren_en(a, b, i);
        assert(i > 0);
        assert(a1.take(i - 1) =~= a.take(i).drop_first());
        assert(b1.take(i - 1) =~= b.take(i).drop_first());
        if i < a.len() && i < b.len() {
            assert(a1[i - 1] == a[i] && b1[i - 1] == b[i]);
        }
        assert(difieren_en(a1, b1, i - 1));
        assert(antes_lex(a1, b1));
    }
    if antes_lex(a1, b1) {
        let i = choose|i: int| difieren_en(a1, b1, i);
        assert(a.take(i + 1) =~= seq![a[0]] + a1.take(i));
        assert(b.take(i + 1) =~= seq![b[0]] + b1.take(i));
        if i < a1.len() && i < b1.len() {
            assert(a[i + 1] == a1[i] && b[i + 1] == b1[i]);
        }
        assert(difieren_en(a, b, i + 1));
        assert(antes_lex(a, b));
    }
}

proof fn lema_lex_primero(a: Seq<char>, b: Seq<char>)
    requires
        a.len() > 0,
        b.len() > 0,
        a[0] < b[0],
    ensures
        antes_lex(a, b),
        !antes_lex(b, a),
{
    assert(a.take(0) =~= b.take(0));
    assert(difieren_en(a, b, 0));
    if antes_lex(b, a) {
        let i = choose|i: int| difieren_en(b, a, i);
        if i > 0 {
            assert(b.take(i)[0] == a.take(i)[0]);
        }
    }
}

/// The order in which `ORDER BY` compares keys is dictionary order:
/// `comparar` is negative exactly when the first key comes before the
/// second, zero exactly when they are equal, positive exactly when the
/// second comes before the first.
pub proof fn ley_comparar(a: Seq<char>, b: Seq<char>)
    ensures
        comparar(a, b) < 0 <==> antes_lex(a, b),
        comparar(a, b) == 0 <==> a == b,
        comparar(a, b) > 0 <==> antes_lex(b, a),
    decreases a.len(),
{
    if a.len() == 0 && b.len() == 0 {
        assert(a =~= b);
        if antes_lex(a, b) {
            let i = choose|i: int| difieren_en(a, b, i);
        }
        if antes_lex(b, a) {
            let i = choose|i: int| difieren_en(b, a, i);
        }
    } else if a.len() == 0 {
        assert(a.take(0) =~= b.take(0));
        assert(difieren_en(a, b, 0));
        assert(antes_lex(a, b));
        if antes_lex(b, a) {
            let i = choose|i: int| difieren_en(b, a, i);
        }
        assert(a != b);
    } else if b.len() == 0 {
        assert(a.take(0) =~= b.take(0));
        assert(difieren_en(b, a, 0));
        assert(antes_lex(b, a));
        if antes_lex(a, b) {
            let i = choose|i: int| difieren_en(a, b, i);
        }
        assert(a != b);
    } else if a[0] < b[0] {
        lema_lex_primero(a, b);
        assert(a != b);
    } else if a[0] > b[0] {
        lema_lex_primero(b, a);
        assert(a != b);
    } else {
        ley_comparar(a.drop_first(), b.drop_first());
        lema_lex_cola(a, b);
        lema_lex_cola(b, a);
        assert(a == b <==> a.drop_first() == b.drop_first()) by {
            if a.drop_first() == b.drop_first() {
                assert(a =~= seq![a[0]] + a.drop_first());
                assert(b =~= seq![b[0]] + b.drop_first());
            }
        }
    }
}

/// After an `ORDER BY` on the key at `index`, no row's key comes, in
/// dictionary order, before the key of a row above it when ascending, nor
/// after it when descending; rows with equal keys keep their order; and
/// the rows are those of the input.
pub proof fn ley_orden_por_columna(
    antes: Seq<Seq<char>>,
    despues: Seq<Seq<char>>,
    index: int,
    asc: bool,
)
    requires
        orden_estable(antes, despues, index, asc),
    ensures
        despues.to_multiset() == antes.to_multiset(),
        forall|a: int, b: int|
            0 <= a < b < despues.len() ==> if asc {
                !antes_lex(clave(#[trigger] despues[b], index), clave(#[trigger] despues[a], index))
            } else {
                !antes_lex(clave(despues[a], index), clave(despues[b], index))
            },
{
    let p = choose|p: Seq<int>| crate::orden::permutacion_estable(antes, despues, p, index, asc);
    assert forall|a: int, b: int| 0 <= a < b < despues.len() implies if asc {
        !antes_lex(clave(#[trigger] despues[b], index), clave(#[trigger] despues[a], index))
    } else {
        !antes_lex(clave(despues[a], index), clave(despues[b], index))
    } by {
        assert(precede(clave(despues[a], index), clave(despues[b], index), asc));
        ley_comparar(clave(despues[a], index), clave(despues[b], index));
    }
}


/// A header cell is asked for by a column list: every cell by an empty
/// list, else the cells whose trimmed text the list names.
pub open spec fn pedida(celda: Seq<char>, lista: Seq<Seq<char>>) -> bool {
    lista.len() == 0 || lista.contains(recortar(celda))
}

proof fn lema_seleccion(encabezado: Seq<Seq<char>>, lista: Seq<Seq<char>>, n: int)
    requires
        0 <= n <= encabezado.len(),
        encabezado.len() <= usize::MAX,
    ensures
        ({
            let r = seleccion(encabezado, lista, n);
            &&& forall|k: int| 0 <= k < r.len() ==> (#[trigger] r[k]) < n && pedida(encabezado[r[k] as int], lista)
            &&& forall|a: int, b: int| 0 <= a < b < r.len() ==> (#[trigger] r[a]) < (#[trigger] r[b])
            &&& forall|i: int| 0 <= i < n && pedida(#[trigger] encabezado[i], lista) ==> r.contains(i as usize)
        }),
    decreases n,
{
    if n > 0 {
        lema_seleccion(encabezado, lista, n - 1);
        let q = seleccion(encabezado, lista, n - 1);
        let r = seleccion(encabezado, lista, n);
        if pedida(encabezado[n - 1], lista) {
            assert(r == q.push((n - 1) as usize));
            assert(r[r.len() - 1] == (n - 1) as usize);
            assert forall|i: int| 0 <= i < n && pedida(#[trigger] encabezado[i], lista) implies r.contains(i as usize) by {
                if i < n - 1 {
                    let k = choose|k: int| 0 <= k < q.len() && q[k] == i as usize;
                    assert(r[k] == q[k]);
                } else {
                    assert(r[r.len() - 1] == i as usize);
                }
            }
        } else {
            assert(r == q);
        }
    }
}

/// The columns a `SELECT` list picks: the header positions whose cells it
/// asks for (all of them for `*`), each once, in header order.
pub proof fn ley_seleccion(encabezado: Seq<Seq<char>>, lista: Seq<Seq<char>>)
    requires
        encabezado.len() <= usize::MAX,
    ensures
        ({
            let r = seleccion(encabezado, lista, encabezado.len() as int);
            &&& forall|k: int|
                0 <= k < r.len() ==> (#[trigger] r[k]) < encabezado.len() && pedida(encabezado[r[k] as int], lista)
            &&& forall|a: int, b: int| 0 <= a < b < r.len() ==> (#[trigger] r[a]) < (#[trigger] r[b])
            &&& forall|i: int|
                0 <= i < encabezado.len() && pedida(#[trigger] encabezado[i], lista) ==> r.contains(i as usize)
        }),
{
    lema_seleccion(encabezado, lista, encabezado.len() as int);
}

/// A comparison names a header cell when their trimmed texts are equal.
pub open spec fn nombra(c: Condicion, celda: Seq<char>) -> bool {
    recortar(c.columna) == recortar(celda)
}

proof fn lema_coincidencias(columna: Seq<char>, i: usize, conds: Seq<Condicion>)
    ensures
        forall|k: int|
            0 <= k < coincidencias(columna, i, conds).len() ==> (#[trigger] coincidencias(columna, i, conds)[k]).0
                == i && nombra(coincidencias(columna, i, conds)[k].1, columna) && conds.contains(
                coincidencias(columna, i, conds)[k].1,
            ),
        forall|j: int|
            0 <= j < conds.len() && nombra(#[trigger] conds[j], columna) ==> coincidencias(columna, i, conds).contains(
                (i, conds[j]),
            ),
{
    let f = |c: Condicion| recortar(c.columna) == recortar(columna);
    let g = |c: Condicion| (i, c);
    let fl = conds.filter(f);
    assert forall|k: int| 0 <= k < coincidencias(columna, i, conds).len() implies (
    #[trigger] coincidencias(columna, i, conds)[k]).0 == i && nombra(coincidencias(columna, i, conds)[k].1, columna)
        && conds.contains(coincidencias(columna, i, conds)[k].1) by {
        conds.lemma_filter_pred(f, k);
        assert(fl.contains(fl[k]));
        conds.lemma_filter_contains_rev(f, fl[k]);
    }
    assert forall|j: int| 0 <= j < conds.len() && nombra(#[trigger] conds[j], columna) implies coincidencias(
        columna,
        i,
        conds,
    ).contains((i, conds[j])) by {
        conds.lemma_filter_contains(f, j);
        let k = choose|k: int| 0 <= k < fl.len() && fl[k] == conds[j];
        assert(fl.map_values(g)[k] == (i, conds[j]));
    }
}

proof fn lema_emparejar(encabezado: Seq<Seq<char>>, conds: Seq<Condicion>, n: int)
    requires
        0 <= n <= encabezado.len(),
        encabezado.len() <= usize::MAX,
    ensures
        ({
            let r = emparejar(encabezado, conds, n);
            &&& forall|k: int|
                0 <= k < r.len() ==> (#[trigger] r[k]).0 < n && nombra(r[k].1, encabezado[r[k].0 as int])
                    && conds.contains(r[k].1)
            &&& forall|a: int, b: int| 0 <= a < b < r.len() ==> (#[trigger] r[a]).0 <= (#[trigger] r[b]).0
            &&& forall|i: int, j: int|
                0 <= i < n && 0 <= j < conds.len() && nombra(#[trigger] conds[j], #[trigger] encabezado[i])
                    ==> r.contains((i as usize, conds[j]))
        }),
    decreases n,
{
    if n > 0 {
        lema_emparejar(encabezado, conds, n - 1);
        let q = emparejar(encabezado, conds, n - 1);
        let c = coincidencias(encabezado[n - 1], (n - 1) as usize, conds);
        lema_coincidencias(encabezado[n - 1], (n - 1) as usize, conds);
        let r = emparejar(encabezado, conds, n);
        assert(r == q + c);
        assert forall|k: int| 0 <= k < r.len() implies (#[trigger] r[k]).0 < n && nombra(r[k].1, encabezado[r[k].0 as int])
            && conds.contains(r[k].1) by {
            if k >= q.len() {
                assert(r[k] == c[k - q.len()]);
            } else {
                assert(r[k] == q[k]);
            }
        }
        assert forall|a: int, b: int| 0 <= a < b < r.len() implies (#[trigger] r[a]).0 <= (#[trigger] r[b]).0 by {
            if b >= q.len() {
                assert(r[b] == c[b - q.len()]);
                if a < q.len() {
                    assert(r[a] == q[a]);
                } else {
                    assert(r[a] == c[a - q.len()]);
                }
            } else {
                assert(r[a] == q[a] && r[b] == q[b]);
            }
        }
        assert forall|i: int, j: int|
            0 <= i < n && 0 <= j < conds.len() && nombra(#[trigger] conds[j], #[trigger] encabezado[i]) implies r.contains(
            (i as usize, conds[j]),
        ) by {
            if i < n - 1 {
                let k = choose|k: int| 0 <= k < q.len() && q[k] == (i as usize, conds[j]);
                assert(r[k] == q[k]);
            } else {
                assert(c.contains(((n - 1) as usize, conds[j])));
                let k = choose|k: int| 0 <= k < c.len() && c[k] == ((n - 1) as usize, conds[j]);
                assert(r[q.len() + k] == c[k]);
            }
        }
    }
}

/// The comparisons a `WHERE` clause reads on a row: each comparison paired
/// with every header position whose cell it names, in header order, and
/// nothing else.
pub proof fn ley_emparejar(encabezado: Seq<Seq<char>>, conds: Seq<Condicion>)
    requires
        encabezado.len() <= usize::MAX,
    ensures
        ({
            let r = emparejar(encabezado, conds, encabezado.len() as int);
            &&& forall|k: int|
                0 <= k < r.len() ==> (#[trigger] r[k]).0 < encabezado.len() && nombra(
                    r[k].1,
                    encabezado[r[k].0 as int],
                ) && conds.contains(r[k].1)
            &&& forall|a: int, b: int| 0 <= a < b < r.len() ==> (#[trigger] r[a]).0 <= (#[trigger] r[b]).0
            &&& forall|i: int, j: int|
                0 <= i < encabezado.len() && 0 <= j < conds.len() && nombra(#[trigger] conds[j], #[trigger] encabezado[i])
                    ==> r.contains((i as usize, conds[j]))
        }),
{
    lema_emparejar(encabezado, conds, encabezado.len() as int);
}


proof fn lema_ediciones_columna(columna: Seq<char>, i: usize, set: Seq<(Seq<char>, Seq<char>)>)
    ensures
        forall|k: int|
            0 <= k < ediciones_columna(columna, i, set).len() ==> (#[trigger] ediciones_columna(columna, i, set)[k]).0
                == i && set.contains((recortar(columna), ediciones_columna(columna, i, set)[k].1)),
        forall|j: int|
            0 <= j < set.len() && (#[trigger] set[j]).0 == recortar(columna) ==> ediciones_columna(columna, i, set).contains(
                (i, set[j].1),
            ),
{
    let f = |a: (Seq<char>, Seq<char>)| a.0 == recortar(columna);
    let g = |a: (Seq<char>, Seq<char>)| (i, a.1);
    let fl = set.filter(f);
    assert forall|k: int| 0 <= k < ediciones_columna(columna, i, set).len() implies (
    #[trigger] ediciones_columna(columna, i, set)[k]).0 == i && set.contains(
        (recortar(columna), ediciones_columna(columna, i, set)[k].1),
    ) by {
        set.lemma_filter_pred(f, k);
        assert(fl.contains(fl[k]));
        set.lemma_filter_contains_rev(f, fl[k]);
        assert(fl[k] == (recortar(columna), fl[k].1));
    }
    assert forall|j: int| 0 <= j < set.len() && (#[trigger] set[j]).0 == recortar(columna) implies ediciones_columna(
        columna,
        i,
        set,
    ).contains((i, set[j].1)) by {
        set.lemma_filter_contains(f, j);
        let k = choose|k: int| 0 <= k < fl.len() && fl[k] == set[j];
        assert(fl.map_values(g)[k] == (i, set[j].1));
    }
}

proof fn lema_ediciones(encabezado: Seq<Seq<char>>, set: Seq<(Seq<char>, Seq<char>)>, n: int)
    requires
        0 <= n <= encabezado.len(),
        encabezado.len() <= usize::MAX,
    ensures
        ({
            let r = ediciones(encabezado, set, n);
            &&& forall|k: int|
                0 <= k < r.len() ==> (#[trigger] r[k]).0 < n && set.contains((recortar(encabezado[r[k].0 as int]), r[k].1))
            &&& forall|a: int, b: int| 0 <= a < b < r.len() ==> (#[trigger] r[a]).0 <= (#[trigger] r[b]).0
            &&& forall|i: int, j: int|
                0 <= i < n && 0 <= j < set.len() && (#[trigger] set[j]).0 == recortar(#[trigger] encabezado[i])
                    ==> r.contains((i as usize, set[j].1))
        }),
    decreases n,
{
    if n > 0 {
        lema_ediciones(encabezado, set, n - 1);
        let q = ediciones(encabezado, set, n - 1);
        let c = ediciones_columna(encabezado[n - 1], (n - 1) as usize, set);
        lema_ediciones_columna(encabezado[n - 1], (n - 1) as usize, set);
        let r = ediciones(encabezado, set, n);
        assert(r == q + c);
        assert forall|k: int| 0 <= k < r.len() implies (#[trigger] r[k]).0 < n && set.contains(
            (recortar(encabezado[r[k].0 as int]), r[k].1),
        ) by {
            if k >= q.len() {
                assert(r[k] == c[k - q.len()]);
            } else {
                assert(r[k] == q[k]);
            }
        }
        assert forall|a: int, b: int| 0 <= a < b < r.len() implies (#[trigger] r[a]).0 <= (#[trigger] r[b]).0 by {
            if b >= q.len() {
                assert(r[b] == c[b - q.len()]);
                if a < q.len() {
                    assert(r[a] == q[a]);
                } else {
                    assert(r[a] == c[a - q.len()]);
                }
            } else {
                assert(r[a] == q[a] && r[b] == q[b]);
            }
        }
        assert forall|i: int, j: int|
            0 <= i < n && 0 <= j < set.len() && (#[trigger] set[j]).0 == recortar(#[trigger] encabezado[i]) implies r.contains(
            (i as usize, set[j].1),
        ) by {
            if i < n - 1 {
                let k = choose|k: int| 0 <= k < q.len() && q[k] == (i as usize, set[j].1);
                assert(r[k] == q[k]);
            } else {
                assert(c.contains(((n - 1) as usize, set[j].1)));
                let k = choose|k: int| 0 <= k < c.len() && c[k] == ((n - 1) as usize, set[j].1);
                assert(r[q.len() + k] == c[k]);
            }
        }
    }
}

/// The cells an `UPDATE` writes: every assignment of the `SET` list to a
/// column, paired with each header position whose trimmed cell names that
/// column, in header order, and nothing else.
pub proof fn ley_ediciones(encabezado: Seq<Seq<char>>, set: Seq<(Seq<char>, Seq<char>)>)
    requires
        encabezado.len() <= usize::MAX,
    ensures
        ({
            let r = ediciones(encabezado, set, encabezado.len() as int);
            &&& forall|k: int|
                0 <= k < r.len() ==> (#[trigger] r[k]).0 < encabezado.len() && set.contains(
                    (recortar(encabezado[r[k].0 as int]), r[k].1),
                )
            &&& forall|a: int, b: int| 0 <= a < b < r.len() ==> (#[trigger] r[a]).0 <= (#[trigger] r[b]).0
            &&& forall|i: int, j: int|
                0 <= i < encabezado.len() && 0 <= j < set.len() && (#[trigger] set[j]).0 == recortar(
                    #[trigger] encabezado[i],
                ) ==> r.contains((i as usize, set[j].1))
        }),
{
    lema_ediciones(encabezado, set, encabezado.len() as int);
}

} // verus!
