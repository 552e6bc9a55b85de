//! Stable ordering of rows by one column (`ORDER BY`).
use vstd::prelude::*;
use crate::filas::{celdas, celdas_exec};
use crate::texto::{
    caracteres, comparar, comparar_exec, lema_comparar_antisimetria, lema_comparar_transitiva,
    textos,
};

verus! {

broadcast use vstd::seq_lib::group_seq_properties;

/// The sort key of a row: its cell at `index`.
pub open spec fn clave(fila: Seq<char>, index: int) -> Seq<char> {
    celdas(fila)[index]
}

/// `a` may stand before `b`: not greater in ascending order, not smaller
/// in descending order (keys compared as `str::cmp` does).
pub open spec fn precede(a: Seq<char>, b: Seq<char>, asc: bool) -> bool {
    if asc {
        comparar(a, b) <= 0
    } else {
        comparar(a, b) >= 0
    }
}

/// Every row has a cell at `index` (needed as soon as two rows are
/// compared).
pub open spec fn con_clave(filas: Seq<Seq<char>>, index: int) -> bool {
    filas.len() >= 2 ==> forall|k: int| 0 <= k < filas.len() ==> index < celdas(#[trigger] filas[k]).len()
}

/// `despues` is `antes` reordered by `p` (`despues[k] == antes[p[k]]`, `p`
/// one-to-one), ordered by the key at `index`, with rows of equal keys in
/// their original order.
pub open spec fn permutacion_estable(
    antes: Seq<Seq<char>>,
    despues: Seq<Seq<char>>,
    p: Seq<int>,
    index: int,
    asc: bool,
) -> bool {
    &&& p.len() == antes.len()
    &&& despues.len() == antes.len()
    &&& forall|k: int| 0 <= k < p.len() ==> 0 <= #[trigger] p[k] < antes.len() && despues[k] == antes[p[k]]
    &&& forall|a: int, b: int| 0 <= a < b < p.len() ==> p[a] != p[b]
    &&& forall|a: int, b: int|
        0 <= a < b < p.len() ==> precede(
            clave(#[trigger] despues[a], index),
            clave(#[trigger] despues[b], index),
            asc,
        )
    &&& forall|a: int, b: int|
        0 <= a < b < p.len() && clave(#[trigger] despues[a], index) == clave(#[trigger] despues[b], index)
            ==> p[a] < p[b]
}

/// `despues` is the stable ordering of `antes` by the key at `index`: the
/// same rows (as a multiset), reordered as `permutacion_estable` says.
pub open spec fn orden_estable(antes: Seq<Seq<char>>, despues: Seq<Seq<char>>, index: int, asc: bool) -> bool {
    &&& despues.to_multiset() == antes.to_multiset()
    &&& exists|p: Seq<int>| permutacion_estable(antes, despues, p, index, asc)
}

proof fn lema_insertar_multiconjunto(s: Seq<Seq<char>>, pos: int, x: Seq<char>)
    requires
        0 <= pos <= s.len(),
    ensures
        s.insert(pos, x).to_multiset() == s.to_multiset().insert(x),
{
    let t = s.insert(pos, x);
    assert(t.remove(pos) =~= s);
    assert(t[pos] == x);
    t.to_multiset_ensures();
    assert(t.contains(x));
    assert(s.to_multiset() =~= t.to_multiset().remove(x));
    assert(s.to_multiset().insert(x) =~= t.to_multiset());
}

pub open spec fn ordenadas(cl: Seq<Seq<char>>, asc: bool) -> bool {
    forall|a: int, b: int| 0 <= a < b < cl.len() ==> precede(#[trigger] cl[a], #[trigger] cl[b], asc)
}

pub open spec fn estables(cl: Seq<Seq<char>>, p: Seq<int>) -> bool {
    forall|a: int, b: int| 0 <= a < b < cl.len() && #[trigger] cl[a] == #[trigger] cl[b] ==> p[a] < p[b]
}

pub proof fn lema_precede(a: Seq<char>, b: Seq<char>, c: Seq<char>, asc: bool)
    ensures
        precede(a, a, asc),
        !precede(a, b, asc) ==> precede(b, a, asc) && a != b,
        precede(a, b, asc) && precede(b, c, asc) ==> precede(a, c, asc),
{
    lema_comparar_antisimetria(a, a);
    lema_comparar_antisimetria(a, b);
    lema_comparar_antisimetria(b, c);
    lema_comparar_antisimetria(a, c);
    if asc {
        if comparar(a, b) <= 0 && comparar(b, c) <= 0 {
            lema_comparar_transitiva(a, b, c);
        }
    } else {
        if comparar(a, b) >= 0 && comparar(b, c) >= 0 {
            lema_comparar_transitiva(c, b, a);
        }
    }
}

proof fn lema_insertar(cl: Seq<Seq<char>>, p: Seq<int>, pos: int, k: Seq<char>, j: int, asc: bool)
    requires
        cl.len() == p.len(),
        0 <= pos <= cl.len(),
        ordenadas(cl, asc),
        estables(cl, p),
        forall|q: int| 0 <= q < p.len() ==> #[trigger] p[q] < j,
        pos == 0 || precede(cl[pos - 1], k, asc),
        forall|q: int| pos <= q < cl.len() ==> !precede(#[trigger] cl[q], k, asc),
    ensures
        ordenadas(cl.insert(pos, k), asc),
        estables(cl.insert(pos, k), p.insert(pos, j)),
{
    let nc = cl.insert(pos, k);
    let np = p.insert(pos, j);
    assert forall|a: int, b: int| 0 <= a < b < nc.len() implies precede(
        #[trigger] nc[a],
        #[trigger] nc[b],
        asc,
    ) by {
        if b < pos {
            assert(nc[a] == cl[a] && nc[b] == cl[b]);
        } else if a > pos {
            assert(nc[a] == cl[a - 1] && nc[b] == cl[b - 1]);
        } else if b == pos {
            assert(nc[a] == cl[a]);
            assert(nc[b] == k);
            if a < pos - 1 {
                assert(precede(cl[a], cl[pos - 1], asc));
                lema_precede(cl[a], cl[pos - 1], k, asc);
            }
        } else if a == pos {
            assert(nc[a] == k);
            assert(nc[b] == cl[b - 1]);
            assert(!precede(cl[b - 1], k, asc));
            lema_precede(cl[b - 1], k, k, asc);
        } else {
            assert(nc[a] == cl[a] && nc[b] == cl[b - 1]);
        }
    }
    assert forall|a: int, b: int| 0 <= a < b < nc.len() && #[trigger] nc[a] == #[trigger] nc[b] implies np[a] < np[b] by {
        if b < pos {
            assert(nc[a] == cl[a] && nc[b] == cl[b]);
            assert(np[a] == p[a] && np[b] == p[b]);
        } else if a > pos {
            assert(nc[a] == cl[a - 1] && nc[b] == cl[b - 1]);
            assert(np[a] == p[a - 1] && np[b] == p[b - 1]);
        } else if b == pos {
            assert(np[a] == p[a]);
            assert(np[b] == j);
        } else if a == pos {
            assert(nc[a] == k);
            assert(nc[b] == cl[b - 1]);
            assert(!precede(cl[b - 1], k, asc));
            lema_precede(cl[b - 1], k, k, asc);
        } else {
            assert(nc[a] == cl[a] && nc[b] == cl[b - 1]);
            assert(np[a] == p[a] && np[b] == p[b - 1]);
        }
    }
}

fn precede_exec(a: &Vec<char>, b: &Vec<char>, asc: bool) -> (r: bool)
    ensures
        r == precede(a@, b@, asc),
{
    let c: i8 = comparar_exec(a, b);
    if asc {
        c <= 0
    } else {
        c >= 0
    }
}

/// Orders rows by their cell at `index`, ascending or descending; rows
/// with equal keys keep their order.
pub fn ordenar_por_columna(filas: Vec<String>, index: usize, asc: bool) -> (r: Vec<String>)
    requires
        con_clave(textos(filas@), index as int),
    ensures
        orden_estable(textos(filas@), textos(r@), index as int, asc),
{
    let ghost fv = textos(filas@);
    if filas.len() < 2 {
        let ghost p = Seq::new(filas.len() as nat, |k: int| k);
        proof {
            assert(permutacion_estable(fv, fv, p, index as int, asc)) by {
                if fv.len() == 1 {
                    lema_precede(clave(fv[0], index as int), clave(fv[0], index as int), clave(fv[0], index as int), asc);
                }
            }
        }
        return filas;
    }
    let mut out: Vec<String> = Vec::new();
    let mut claves: Vec<Vec<char>> = Vec::new();
    let ghost mut p: Seq<int> = Seq::empty();
    let mut j: usize = 0;
    while j < filas.len()
        invariant
            j <= filas.len(),
            filas.len() >= 2,
            fv == textos(filas@),
            con_clave(fv, index as int),
            out.len() == j,
            claves.len() == j,
            p.len() == j,
            forall|q: int| 0 <= q < j ==> 0 <= #[trigger] p[q] < j && textos(out@)[q] == fv[p[q]],
            forall|q: int| 0 <= q < j ==> (#[trigger] claves@[q])@ == clave(textos(out@)[q], index as int),
            forall|a: int, b: int| 0 <= a < b < j ==> p[a] != p[b],
            textos(out@).to_multiset() == fv.take(j as int).to_multiset(),
            ordenadas(claves@.map_values(|x: Vec<char>| x@), asc),
            estables(claves@.map_values(|x: Vec<char>| x@), p),
        decreases filas.len() - j,
    {
        let ghost cl = claves@.map_values(|x: Vec<char>| x@);
        let ghost ov = textos(out@);
        let ghost claves_antes = claves@;
        let cs = celdas_exec(filas[j].as_str());
        assert(fv[j as int] == filas@[j as int]@);
        assert(index < celdas(fv[j as int]).len());
        let k = caracteres(cs[index].as_str());
        assert(k@ == clave(fv[j as int], index as int));
        let mut pos: usize = out.len();
        while pos > 0 && !precede_exec(&claves[pos - 1], &k, asc)
            invariant
                pos <= claves.len(),
                cl == claves@.map_values(|x: Vec<char>| x@),
                forall|q: int| pos <= q < cl.len() ==> !precede(#[trigger] cl[q], k@, asc),
            decreases pos,
        {
            pos = pos - 1;
        }
        proof {
            if pos > 0 {
                assert(cl[pos - 1] == claves@[pos - 1]@);
            }
            lema_insertar(cl, p, pos as int, k@, j as int, asc);
        }
        out.insert(pos, filas[j].clone());
        claves.insert(pos, k);
        proof {
            let np = p.insert(pos as int, j as int);
            assert(claves@.map_values(|x: Vec<char>| x@) =~= cl.insert(pos as int, k@));
            assert(textos(out@) =~= ov.insert(pos as int, fv[j as int]));
            lema_insertar_multiconjunto(ov, pos as int, fv[j as int]);
            assert(fv.take(j + 1) =~= fv.take(j as int).push(fv[j as int]));
            fv.take(j as int).to_multiset_ensures();
            assert forall|q: int| 0 <= q < j + 1 implies 0 <= #[trigger] np[q] < j + 1 && textos(out@)[q] == fv[np[q]] by {
                if q < pos {
                    assert(np[q] == p[q]);
                } else if q > pos {
                    assert(np[q] == p[q - 1]);
                }
            }
            assert(claves@ == claves_antes.insert(pos as int, k));
            assert forall|q: int| 0 <= q < j + 1 implies (#[trigger] claves@[q])@ == clave(textos(out@)[q], index as int) by {
                if q < pos {
                    assert(claves@[q] == claves_antes[q]);
                    assert(textos(out@)[q] == ov[q]);
                } else if q > pos {
                    assert(claves@[q] == claves_antes[q - 1]);
                    assert(textos(out@)[q] == ov[q - 1]);
                }
            }
            p = np;
        }
        j = j + 1;
    }
    proof {
        let rv = textos(out@);
        let cl = claves@.map_values(|x: Vec<char>| x@);
        assert forall|a: int, b: int| 0 <= a < b < p.len() implies precede(
            clave(#[trigger] rv[a], index as int),
            clave(#[trigger] rv[b], index as int),
            asc,
        ) by {
            assert(cl[a] == claves@[a]@ && cl[b] == claves@[b]@);
        }
        assert forall|a: int, b: int| 0 <= a < b < p.len() && clave(#[trigger] rv[a], index as int) == clave(#[trigger] rv[b], index as int)
            implies p[a] < p[b] by {
            assert(cl[a] == claves@[a]@ && cl[b] == claves@[b]@);
        }
        assert(permutacion_estable(fv, rv, p, index as int, asc));
        assert(fv.take(fv.len() as int) =~= fv);
    }
    out
}

} // verus!
