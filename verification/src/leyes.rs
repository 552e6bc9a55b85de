//! Properties that hold across the commands.
use vstd::prelude::*;
use crate::delete::{filas_conservadas, salida_delete, Borrado};
use crate::filas::{celdas, emparejar, proyeccion, seleccion};
use crate::parciar::{
    acumulado, analizar, cumple, es_clave, evaluacion, fichas, grupo, operacion, paso, predicado,
    secciones, tramos, EstadoParser,
};
use crate::select::{
    analisis_select, celdas_encabezado, claves_select, filas_filtradas, ordenadas_select, pasa_filtro,
    salida_select, Seleccion,
};
use crate::sql_conditions::Condicion;
use crate::sql_predicate::SqlOperador;
use crate::texto::{
    empieza_con, es_espacio, lema_palabras, lema_partir_no_vacio, no_vacia, palabras, partir,
    partir_espacios, recortar, reemplazar, sin_espacios, sin_espacios_fin, sin_espacios_inicio,
    unir, lema_sin_fin, lema_sin_inicio, contiene, primera_ocurrencia,
};
use crate::insert::linea_insert;
use crate::update::{aplicar, ediciones_en, fila_actualizada};

verus! {

broadcast use vstd::seq_lib::group_seq_properties;

proof fn lema_filtro_parte(s: Seq<Seq<char>>, p: spec_fn(Seq<char>) -> bool)
    ensures
        s.filter(p).to_multiset().add(s.filter(|x: Seq<char>| !p(x)).to_multiset()) =~= s.to_multiset(),
        s.filter(p).len() + s.filter(|x: Seq<char>| !p(x)).len() == s.len(),
    decreases s.len(),
{
    let q = |x: Seq<char>| !p(x);
    if s.len() == 0 {
        reveal(Seq::filter);
        assert(s.filter(p) =~= s);
        assert(s.filter(q) =~= s);
    } else {
        let r = s.drop_last();
        lema_filtro_parte(r, p);
        assert(s =~= r.push(s.last()));
        r.lemma_filter_push(s.last(), p);
        r.lemma_filter_push(s.last(), q);
        r.filter(p).to_multiset_ensures();
        r.filter(q).to_multiset_ensures();
        r.to_multiset_ensures();
    }
}

/// A `SELECT` and a `DELETE` with the same `WHERE` clause (with at least
/// one comparison) on the same table split its rows: every row is either
/// returned by the `SELECT` or kept by the `DELETE`, never both.
pub proof fn ley_select_y_delete_se_complementan(
    s: Seleccion,
    d: Borrado,
    encabezado: Option<Seq<char>>,
    lineas: Seq<Seq<char>>,
)
    requires
        s.filtro == Some(d.filtro),
        d.filtro.condiciones.len() > 0,
    ensures
        ({
            let enc = celdas_encabezado(encabezado);
            let idx = emparejar(enc, d.filtro.condiciones, enc.len() as int);
            let elegidas = filas_filtradas(s, enc, lineas);
            let conservadas = filas_conservadas(lineas, idx, d.filtro);
            &&& elegidas.to_multiset().add(conservadas.to_multiset()) == lineas.to_multiset()
            &&& elegidas.len() + conservadas.len() == lineas.len()
        }),
{
    let enc = celdas_encabezado(encabezado);
    let idx = emparejar(enc, d.filtro.condiciones, enc.len() as int);
    let p = |x: Seq<char>| evaluacion(celdas(x), idx, d.filtro.operadores);
    lema_filtro_parte(lineas, p);
    let f1 = |f: Seq<char>| pasa_filtro(f, s.filtro, crate::select::indices_filtro(enc, s.filtro));
    let f2 = |f: Seq<char>| !evaluacion(celdas(f), idx, d.filtro.operadores);
    assert(f1 =~= p);
    assert(f2 =~= (|x: Seq<char>| !p(x)));
}

/// A `WHERE` clause whose comparisons name no column of the header selects
/// nothing and deletes nothing: the `SELECT` returns no row and the
/// `DELETE` leaves the table unchanged.
pub proof fn ley_columna_desconocida(
    s: Seleccion,
    d: Borrado,
    encabezado: Option<Seq<char>>,
    lineas: Seq<Seq<char>>,
)
    requires
        s.filtro == Some(d.filtro),
        d.filtro.condiciones.len() > 0,
        ({
            let enc = celdas_encabezado(encabezado);
            emparejar(enc, d.filtro.condiciones, enc.len() as int).len() == 0
        }),
    ensures
        filas_filtradas(s, celdas_encabezado(encabezado), lineas).len() == 0,
        salida_delete(d, encabezado, lineas) is None,
    decreases lineas.len(),
{
    let enc = celdas_encabezado(encabezado);
    reveal(Seq::filter);
    if lineas.len() > 0 {
        ley_columna_desconocida(s, d, encabezado, lineas.drop_last());
        let f1 = |f: Seq<char>| pasa_filtro(f, s.filtro, crate::select::indices_filtro(enc, s.filtro));
        assert(!f1(lineas.last()));
    }
}

/// `SELECT *` (an empty column list) chooses every header column, in order.
pub proof fn ley_select_todas_las_columnas(encabezado: Seq<Seq<char>>, n: int)
    requires
        0 <= n <= encabezado.len(),
    ensures
        seleccion(encabezado, Seq::empty(), n) == Seq::new(n as nat, |i: int| i as usize),
    decreases n,
{
    if n > 0 {
        ley_select_todas_las_columnas(encabezado, n - 1);
        assert(seleccion(encabezado, Seq::empty(), n) =~= Seq::new(n as nat, |i: int| i as usize));
    } else {
        assert(seleccion(encabezado, Seq::empty(), n) =~= Seq::new(n as nat, |i: int| i as usize));
    }
}

/// The comparisons an evaluation reads: the first `n_ops + 1` (the only
/// one, when there is a single match).
pub open spec fn leida(idx: Seq<(usize, Condicion)>, n_ops: int, k: int) -> bool {
    0 <= k < idx.len() && k <= n_ops
}

/// The operators form a valid chain over the matches.
pub open spec fn cadena(idx: Seq<(usize, Condicion)>, n_ops: int) -> bool {
    &&& idx.len() >= 1
    &&& (idx.len() == 1 ==> n_ops <= 1)
    &&& (idx.len() >= 2 ==> n_ops + 1 <= idx.len())
}

#[verifier::spinoff_prover]
proof fn lema_solo_and(columnas: Seq<Seq<char>>, idx: Seq<(usize, Condicion)>, ops: Seq<SqlOperador>, n: int)
    requires
        cadena(idx, ops.len() as int),
        0 <= n <= ops.len(),
        forall|k: int| 0 <= k < ops.len() ==> ops[k] == SqlOperador::And,
    ensures
        acumulado(columnas, idx, ops, n) == forall|k: int|
            leida(idx, n, k) ==> cumple(columnas, #[trigger] idx[k].0 as int, idx[k].1),
    decreases n,
{
    if n > 0 {
        lema_solo_and(columnas, idx, ops, n - 1);
    }
}

proof fn lema_solo_or(columnas: Seq<Seq<char>>, idx: Seq<(usize, Condicion)>, ops: Seq<SqlOperador>, n: int)
    requires
        cadena(idx, ops.len() as int),
        0 <= n <= ops.len(),
        forall|k: int| 0 <= k < ops.len() ==> ops[k] == SqlOperador::Or,
    ensures
        acumulado(columnas, idx, ops, n) == exists|k: int|
            leida(idx, n, k) && cumple(columnas, #[trigger] idx[k].0 as int, idx[k].1),
    decreases n,
{
    if n > 0 {
        lema_solo_or(columnas, idx, ops, n - 1);
        if idx.len() >= 2 {
            if cumple(columnas, idx[n].0 as int, idx[n].1) {
                assert(leida(idx, n, n));
            }
        }
    } else {
        if cumple(columnas, idx[0].0 as int, idx[0].1) {
            assert(leida(idx, 0, 0));
        }
    }
}

/// A `WHERE` clause joined only by `AND` holds exactly when every
/// comparison it reads holds; one joined only by `OR`, when some does.
pub proof fn ley_and_or(columnas: Seq<Seq<char>>, idx: Seq<(usize, Condicion)>, ops: Seq<SqlOperador>)
    requires
        cadena(idx, ops.len() as int),
    ensures
        (forall|k: int| 0 <= k < ops.len() ==> ops[k] == SqlOperador::And) ==> (evaluacion(
            columnas,
            idx,
            ops,
        ) == forall|k: int|
            leida(idx, ops.len() as int, k) ==> cumple(columnas, #[trigger] idx[k].0 as int, idx[k].1)),
        (forall|k: int| 0 <= k < ops.len() ==> ops[k] == SqlOperador::Or) ==> (evaluacion(
            columnas,
            idx,
            ops,
        ) == exists|k: int|
            leida(idx, ops.len() as int, k) && cumple(columnas, #[trigger] idx[k].0 as int, idx[k].1)),
{
    if forall|k: int| 0 <= k < ops.len() ==> ops[k] == SqlOperador::And {
        lema_solo_and(columnas, idx, ops, ops.len() as int);
    }
    if forall|k: int| 0 <= k < ops.len() ==> ops[k] == SqlOperador::Or {
        lema_solo_or(columnas, idx, ops, ops.len() as int);
    }
}


proof fn lema_unir_cons(x: Seq<char>, r: Seq<Seq<char>>, sep: Seq<char>)
    requires
        r.len() >= 1,
    ensures
        unir(seq![x] + r, sep) == x + sep + unir(r, sep),
    decreases r.len(),
{
    let xr = seq![x] + r;
    if r.len() == 1 {
        assert(xr.drop_last() =~= seq![x]);
        assert(xr.last() == r[0]);
        assert(unir(seq![x], sep) == x);
        assert(unir(r, sep) == r[0]);
    } else {
        lema_unir_cons(x, r.drop_last(), sep);
        assert(xr.drop_last() =~= seq![x] + r.drop_last());
        assert(xr.last() == r.last());
        assert(unir(xr, sep) =~= x + sep + unir(r, sep));
    }
}

proof fn lema_unir_prefijo(r: Seq<Seq<char>>, sep: Seq<char>, y: Seq<char>)
    requires
        r.len() >= 1,
    ensures
        unir(r.update(0, y + r[0]), sep) == y + unir(r, sep),
    decreases r.len(),
{
    let r2 = r.update(0, y + r[0]);
    if r.len() > 1 {
        lema_unir_prefijo(r.drop_last(), sep, y);
        assert(r2.drop_last() =~= r.drop_last().update(0, y + r[0]));
        assert(r2.last() == r.last());
    }
}

/// Joining the pieces of a split by the same separator gives the text back.
pub proof fn ley_unir_partir(s: Seq<char>, p: Seq<char>)
    requires
        p.len() > 0,
    ensures
        unir(partir(s, p), p) == s,
    decreases s.len(),
{
    if s.len() == 0 {
    } else if empieza_con(s, p) {
        let rest = s.skip(p.len() as int);
        ley_unir_partir(rest, p);
        lema_partir_no_vacio(rest, p);
        lema_unir_cons(Seq::empty(), partir(rest, p), p);
        assert(s =~= p + rest);
        assert(Seq::<char>::empty() + p + unir(partir(rest, p), p) =~= s);
    } else {
        let rest = s.drop_first();
        ley_unir_partir(rest, p);
        lema_partir_no_vacio(rest, p);
        lema_unir_prefijo(partir(rest, p), p, seq![s[0]]);
        assert(seq![s[0]] + rest =~= s);
    }
}

/// A CSV line is the join of its cells by commas.
pub proof fn ley_linea_de_celdas(linea: Seq<char>)
    ensures
        unir(celdas(linea), ","@) == linea,
{
    reveal_strlit(",");
    ley_unir_partir(linea, ","@);
}

/// A row that a `DELETE` keeps is written unchanged when it has as many
/// cells as the header.
pub proof fn ley_delete_conserva_filas(encabezado: Seq<Seq<char>>, fila: Seq<char>)
    requires
        celdas(fila).len() == encabezado.len(),
        encabezado.len() <= usize::MAX,
    ensures
        proyeccion(celdas(fila), seleccion(encabezado, Seq::empty(), encabezado.len() as int)) == fila,
{
    ley_select_todas_las_columnas(encabezado, encabezado.len() as int);
    let idx = seleccion(encabezado, Seq::empty(), encabezado.len() as int);
    assert forall|k: int| 0 <= k < idx.len() implies idx[k] as int == k by {
        assert(idx[k] == k as usize);
    }
    assert(idx.map_values(|i: usize| celdas(fila)[i as int]) =~= celdas(fila));
    ley_linea_de_celdas(fila);
}

/// The value the last assignment to cell `c` writes, if any.
pub open spec fn ultima_asignacion(ed: Seq<(usize, Seq<char>)>, c: int) -> Option<Seq<char>>
    decreases ed.len(),
{
    if ed.len() == 0 {
        None
    } else if ed.last().0 == c {
        Some(ed.last().1)
    } else {
        ultima_asignacion(ed.drop_last(), c)
    }
}

/// An `UPDATE` changes only the cells it assigns: each assigned cell takes
/// the value of its last assignment, every other cell stays, and the row
/// keeps its number of cells.
pub proof fn ley_update_solo_asignadas(cs: Seq<Seq<char>>, ed: Seq<(usize, Seq<char>)>)
    requires
        ediciones_en(ed, cs.len() as int),
    ensures
        aplicar(cs, ed).len() == cs.len(),
        forall|c: int|
            0 <= c < cs.len() ==> #[trigger] aplicar(cs, ed)[c] == match ultima_asignacion(ed, c) {
                Some(v) => v,
                None => cs[c],
            },
    decreases ed.len(),
{
    if ed.len() > 0 {
        assert(ed.last() == ed[ed.len() - 1]);
        assert(ediciones_en(ed.drop_last(), cs.len() as int));
        ley_update_solo_asignadas(cs, ed.drop_last());
    }
}

proof fn lema_quitar(s: Seq<char>, c: char)
    ensures
        forall|x: char| #[trigger] reemplazar(s, seq![c], Seq::empty()).contains(x) ==> s.contains(x) && x != c,
    decreases s.len(),
{
    let r = reemplazar(s, seq![c], Seq::empty());
    if s.len() > 0 {
        if empieza_con(s, seq![c]) {
            lema_quitar(s.skip(1), c);
            assert(r =~= reemplazar(s.skip(1), seq![c], Seq::empty()));
            assert forall|x: char| #[trigger] r.contains(x) implies s.contains(x) && x != c by {
                let j: int = choose|j: int| 0 <= j < s.skip(1).len() && s.skip(1)[j] == x;
                assert(s[j + 1] == x);
            }
        } else {
            lema_quitar(s.drop_first(), c);
            assert(s.take(1) =~= seq![s[0]]);
            assert(s[0] != c);
            let t = reemplazar(s.drop_first(), seq![c], Seq::empty());
            assert(r =~= seq![s[0]] + t);
            assert forall|x: char| #[trigger] r.contains(x) implies s.contains(x) && x != c by {
                let j: int = choose|j: int| 0 <= j < r.len() && r[j] == x;
                if j == 0 {
                    assert(s[0] == x);
                } else {
                    assert(t[j - 1] == x);
                    assert(t.contains(x));
                    let i: int = choose|i: int| 0 <= i < s.drop_first().len() && s.drop_first()[i] == x;
                    assert(s[i + 1] == x);
                }
            }
        }
    }
}

/// A line that an `INSERT` appends holds no parenthesis, single quote or
/// space.
pub proof fn ley_linea_insert_limpia(valores: Seq<char>)
    ensures
        !linea_insert(valores).contains('('),
        !linea_insert(valores).contains(')'),
        !linea_insert(valores).contains('\''),
        !linea_insert(valores).contains(' '),
{
    reveal_strlit("(");
    reveal_strlit(")");
    reveal_strlit("'");
    reveal_strlit(" ");
    reveal_strlit("");
    assert("("@ =~= seq!['(']);
    assert(")"@ =~= seq![')']);
    assert("'"@ =~= seq!['\'']);
    assert(" "@ =~= seq![' ']);
    assert(""@ =~= Seq::<char>::empty());
    let a = reemplazar(recortar(valores), "("@, ""@);
    let b = reemplazar(a, ")"@, ""@);
    let c = reemplazar(b, "'"@, ""@);
    let d = reemplazar(c, " "@, ""@);
    lema_quitar(recortar(valores), '(');
    lema_quitar(a, ')');
    lema_quitar(b, '\'');
    lema_quitar(c, ' ');
    assert(d == linea_insert(valores));
}


/// `SELECT *` with no comparison and no `ORDER BY` prints every row
/// unchanged, in file order, when each row has as many cells as the header
/// (so a row written by `INSERT` is read back as written).
pub proof fn ley_select_todo_devuelve_las_filas(
    s: Seleccion,
    encabezado: Seq<char>,
    lineas: Seq<Seq<char>>,
)
    requires
        s.columnas.len() == 0,
        s.orden is None,
        match s.filtro {
            Some(w) => w.condiciones.len() == 0,
            None => true,
        },
        celdas(encabezado).len() <= usize::MAX,
        forall|k: int| 0 <= k < lineas.len() ==> celdas(#[trigger] lineas[k]).len() == celdas(encabezado).len(),
    ensures
        salida_select(s, Some(encabezado), lineas, lineas),
{
    let enc = celdas_encabezado(Some(encabezado));
    let f = |x: Seq<char>| pasa_filtro(x, s.filtro, crate::select::indices_filtro(enc, s.filtro));
    assert(lineas.filter(f) == lineas) by {
        lema_filtro_todo(lineas, f);
    }
    let sel = seleccion(enc, s.columnas, enc.len() as int);
    assert(s.columnas =~= Seq::<Seq<char>>::empty());
    assert(lineas.map_values(|x: Seq<char>| proyeccion(celdas(x), sel)) =~= lineas) by {
        assert forall|k: int| 0 <= k < lineas.len() implies proyeccion(celdas(lineas[k]), sel) == lineas[k] by {
            ley_delete_conserva_filas(enc, lineas[k]);
        }
    }
    assert(ordenadas_select(s, enc, filas_filtradas(s, enc, lineas), lineas));
}

proof fn lema_filtro_todo(s: Seq<Seq<char>>, f: spec_fn(Seq<char>) -> bool)
    requires
        forall|k: int| 0 <= k < s.len() ==> f(#[trigger] s[k]),
    ensures
        s.filter(f) == s,
    decreases s.len(),
{
    reveal(Seq::filter);
    if s.len() > 0 {
        lema_filtro_todo(s.drop_last(), f);
        assert(f(s[s.len() - 1]));
        assert(s.drop_last().push(s.last()) =~= s);
    }
}


proof fn lema_tramos(ws: Seq<Seq<char>>, claves: Seq<Seq<char>>)
    ensures
        tramos(ws, claves).flatten() == ws.filter(|w: Seq<char>| !es_clave(w, claves)),
        forall|k: int|
            0 <= k < tramos(ws, claves).len() ==> (#[trigger] tramos(ws, claves)[k]).len() > 0,
        forall|k: int, j: int|
            0 <= k < tramos(ws, claves).len() && 0 <= j < tramos(ws, claves)[k].len() ==> exists|
                i: int,
            |
                0 <= i < ws.len() && ws[i] == #[trigger] tramos(ws, claves)[k][j],
        forall|k: int, j: int|
            0 <= k < tramos(ws, claves).len() && 0 <= j < tramos(ws, claves)[k].len() ==> !es_clave(
                #[trigger] tramos(ws, claves)[k][j],
                claves,
            ),
    decreases ws.len(),
{
    let f = |w: Seq<char>| !es_clave(w, claves);
    reveal(Seq::filter);
    if ws.len() > 0 {
        let r = ws.drop_last();
        let t = tramos(r, claves);
        lema_tramos(r, claves);
        assert(ws.filter(f) == if f(ws.last()) {
            r.filter(f).push(ws.last())
        } else {
            r.filter(f)
        });
        if es_clave(ws.last(), claves) {
        } else if ws.len() >= 2 && !es_clave(ws[ws.len() - 2], claves) {
            assert(t.len() > 0) by {
                assert(r.last() == ws[ws.len() - 2]);
            }
            let n = tramos(ws, claves);
            assert(t.drop_last().push(t.last()) =~= t);
            assert(n.drop_last() =~= t.drop_last());
            t.drop_last().lemma_flatten_push(t.last());
            n.drop_last().lemma_flatten_push(n.last());
            assert(n.drop_last().push(n.last()) =~= n);
            assert(n.flatten() =~= t.flatten().push(ws.last()));
            assert forall|k: int, j: int|
                0 <= k < n.len() && 0 <= j < n[k].len() implies exists|i: int|
                0 <= i < ws.len() && ws[i] == #[trigger] n[k][j] by {
                if k == n.len() - 1 && j == n[k].len() - 1 {
                    assert(ws[ws.len() - 1] == n[k][j]);
                } else {
                    let i = choose|i: int| 0 <= i < r.len() && r[i] == t[k][j];
                    assert(ws[i] == n[k][j]);
                }
            }
        } else {
            let n = tramos(ws, claves);
            t.lemma_flatten_push(seq![ws.last()]);
            assert(n.flatten() =~= t.flatten().push(ws.last()));
            assert forall|k: int, j: int|
                0 <= k < n.len() && 0 <= j < n[k].len() implies exists|i: int|
                0 <= i < ws.len() && ws[i] == #[trigger] n[k][j] by {
                if k == n.len() - 1 {
                    assert(ws[ws.len() - 1] == n[k][j]);
                } else {
                    let i = choose|i: int| 0 <= i < r.len() && r[i] == t[k][j];
                    assert(ws[i] == n[k][j]);
                }
            }
        }
    }
}

/// Cutting a command at its keywords loses no other word: the sections,
/// read word by word, are the words of the command that are not keywords,
/// in order; and no section is empty.
pub proof fn ley_secciones(sql: Seq<char>, claves: Seq<Seq<char>>)
    ensures
        tramos(palabras(sql), claves).flatten() == palabras(sql).filter(
            |w: Seq<char>| !es_clave(w, claves),
        ),
        secciones(sql, claves).len() == tramos(palabras(sql), claves).len(),
        forall|k: int|
            0 <= k < secciones(sql, claves).len() ==> secciones(sql, claves)[k] == unir(
                tramos(palabras(sql), claves)[k],
                seq![' '],
            ) && (#[trigger] secciones(sql, claves)[k]).len() > 0,
{
    let ws = palabras(sql);
    let t = tramos(ws, claves);
    lema_tramos(ws, claves);
    lema_palabras(sql);
    assert forall|k: int| 0 <= k < secciones(sql, claves).len() implies (
    #[trigger] secciones(sql, claves)[k]).len() > 0 by {
        assert(t[k].len() > 0);
        let i0 = choose|i: int| 0 <= i < ws.len() && ws[i] == t[k][0];
        assert(no_vacia(ws[i0]));
        let il = choose|i: int| 0 <= i < ws.len() && ws[i] == t[k][t[k].len() - 1];
        assert(no_vacia(ws[il]));
        crate::texto::lema_unir_extremos(t[k], seq![' ']);
    }
}


/// No character of `x` is `c`.
pub open spec fn sin_caracter(x: Seq<char>, c: char) -> bool {
    forall|j: int| 0 <= j < x.len() ==> #[trigger] x[j] != c
}

pub(crate) proof fn lema_partir_sin_separador(x: Seq<char>, c: char)
    requires
        sin_caracter(x, c),
    ensures
        partir(x, seq![c]) == seq![x],
    decreases x.len(),
{
    if x.len() > 0 {
        assert(x.take(1)[0] == x[0]);
        assert(!empieza_con(x, seq![c]));
        assert(sin_caracter(x.drop_first(), c)) by {
            assert forall|j: int| 0 <= j < x.drop_first().len() implies #[trigger] x.drop_first()[j] != c by {
                assert(x.drop_first()[j] == x[j + 1]);
            }
        }
        lema_partir_sin_separador(x.drop_first(), c);
        assert(seq![x[0]] + x.drop_first() =~= x);
        assert(seq![x.drop_first()].update(0, seq![x[0]] + x.drop_first()) =~= seq![x]);
    }
}

pub(crate) proof fn lema_partir_tras_separador(x: Seq<char>, c: char, y: Seq<char>)
    requires
        sin_caracter(x, c),
    ensures
        partir(x + seq![c] + y, seq![c]) == seq![x] + partir(y, seq![c]),
    decreases x.len(),
{
    let s = x + seq![c] + y;
    if x.len() == 0 {
        assert(s =~= seq![c] + y);
        assert(s.take(1) =~= seq![c]);
        assert(s.skip(1) =~= y);
    } else {
        assert(s[0] == x[0]);
        assert(s.take(1)[0] == s[0]);
        assert(!empieza_con(s, seq![c]));
        let x1 = x.drop_first();
        assert(sin_caracter(x1, c)) by {
            assert forall|j: int| 0 <= j < x1.len() implies #[trigger] x1[j] != c by {
                assert(x1[j] == x[j + 1]);
            }
        }
        lema_partir_tras_separador(x1, c, y);
        assert(s.drop_first() =~= x1 + seq![c] + y);
        let r = seq![x1] + partir(y, seq![c]);
        assert(seq![x[0]] + x1 =~= x);
        assert(r.update(0, seq![s[0]] + r[0]) =~= seq![x] + partir(y, seq![c]));
    }
}

/// Splitting a join by a one-character separator gives the pieces back,
/// when no piece holds that character.
pub proof fn ley_partir_unir(partes: Seq<Seq<char>>, c: char)
    requires
        partes.len() >= 1,
        forall|k: int| 0 <= k < partes.len() ==> sin_caracter(#[trigger] partes[k], c),
    ensures
        partir(unir(partes, seq![c]), seq![c]) == partes,
    decreases partes.len(),
{
    if partes.len() == 1 {
        assert(sin_caracter(partes[0], c));
        lema_partir_sin_separador(partes[0], c);
        assert(seq![partes[0]] =~= partes);
    } else {
        let resto = partes.drop_first();
        assert forall|k: int| 0 <= k < resto.len() implies sin_caracter(#[trigger] resto[k], c) by {
            assert(resto[k] == partes[k + 1]);
        }
        ley_partir_unir(resto, c);
        assert(seq![partes[0]] + resto =~= partes);
        lema_unir_cons(partes[0], resto, seq![c]);
        assert(sin_caracter(partes[0], c));
        lema_partir_tras_separador(partes[0], c, unir(resto, seq![c]));
        assert(seq![partes[0]] + resto =~= partes);
    }
}

proof fn lema_piezas_sin_separador(s: Seq<char>, c: char)
    ensures
        forall|k: int|
            0 <= k < partir(s, seq![c]).len() ==> sin_caracter(#[trigger] partir(s, seq![c])[k], c),
    decreases s.len(),
{
    let p = seq![c];
    if s.len() > 0 {
        if empieza_con(s, p) {
            lema_piezas_sin_separador(s.skip(1), c);
            assert forall|k: int| 0 <= k < partir(s, p).len() implies sin_caracter(
                #[trigger] partir(s, p)[k],
                c,
            ) by {
                if k > 0 {
                    assert(partir(s, p)[k] == partir(s.skip(1), p)[k - 1]);
                }
            }
        } else {
            if s[0] == c {
                assert(s.take(1) =~= p);
            }
            lema_piezas_sin_separador(s.drop_first(), c);
            lema_partir_no_vacio(s.drop_first(), p);
            let r = partir(s.drop_first(), p);
            assert forall|k: int| 0 <= k < partir(s, p).len() implies sin_caracter(
                #[trigger] partir(s, p)[k],
                c,
            ) by {
                if k == 0 {
                    let x = seq![s[0]] + r[0];
                    assert(sin_caracter(r[0], c));
                    assert forall|j: int| 0 <= j < x.len() implies #[trigger] x[j] != c by {
                        if j > 0 {
                            assert(x[j] == r[0][j - 1]);
                        }
                    }
                } else {
                    assert(partir(s, p)[k] == r[k]);
                }
            }
        }
    }
}

proof fn lema_aplicar_sin_separador(cs: Seq<Seq<char>>, ed: Seq<(usize, Seq<char>)>, c: char)
    requires
        ediciones_en(ed, cs.len() as int),
        forall|k: int| 0 <= k < cs.len() ==> sin_caracter(#[trigger] cs[k], c),
        forall|k: int| 0 <= k < ed.len() ==> sin_caracter(#[trigger] ed[k].1, c),
    ensures
        forall|k: int| 0 <= k < aplicar(cs, ed).len() ==> sin_caracter(#[trigger] aplicar(cs, ed)[k], c),
    decreases ed.len(),
{
    if ed.len() > 0 {
        let e = ed.drop_last();
        assert forall|k: int| 0 <= k < e.len() implies sin_caracter(#[trigger] e[k].1, c) by {
            assert(e[k] == ed[k]);
        }
        assert(ed.last() == ed[ed.len() - 1]);
        assert(ediciones_en(e, cs.len() as int));
        lema_aplicar_sin_separador(cs, e, c);
        ley_update_solo_asignadas(cs, e);
        assert(sin_caracter(ed[ed.len() - 1].1, c));
        let a = aplicar(cs, e);
        assert forall|k: int| 0 <= k < aplicar(cs, ed).len() implies sin_caracter(
            #[trigger] aplicar(cs, ed)[k],
            c,
        ) by {
            if k != ed.last().0 as int {
                assert(aplicar(cs, ed)[k] == a[k]);
            }
        }
    }
}

/// An `UPDATE` of a row, read again as cells, gives the row's cells with
/// the assignments applied: as many cells as before, each assigned cell
/// holding the value of its last assignment and every other cell
/// unchanged, when no assigned value holds a comma.
pub proof fn ley_fila_actualizada(linea: Seq<char>, ed: Seq<(usize, Seq<char>)>)
    requires
        ediciones_en(ed, celdas(linea).len() as int),
        forall|k: int| 0 <= k < ed.len() ==> sin_caracter(#[trigger] ed[k].1, ','),
    ensures
        celdas(fila_actualizada(linea, ed)).len() == celdas(linea).len(),
        forall|c: int|
            0 <= c < celdas(linea).len() ==> #[trigger] celdas(fila_actualizada(linea, ed))[c]
                == match ultima_asignacion(ed, c) {
                Some(v) => v,
                None => celdas(linea)[c],
            },
{
    reveal_strlit(",");
    assert(","@ =~= seq![',']);
    let cs = celdas(linea);
    lema_piezas_sin_separador(linea, ',');
    lema_partir_no_vacio(linea, seq![',']);
    lema_aplicar_sin_separador(cs, ed, ',');
    ley_update_solo_asignadas(cs, ed);
    ley_partir_unir(aplicar(cs, ed), ',');
}


proof fn lema_espacios_sin_espacio(x: Seq<char>)
    requires
        sin_espacios(x),
    ensures
        partir_espacios(x) == seq![x],
    decreases x.len(),
{
    if x.len() > 0 {
        assert(!es_espacio(x[0]));
        assert(sin_espacios(x.drop_first())) by {
            assert forall|j: int| 0 <= j < x.drop_first().len() implies !es_espacio(#[trigger] x.drop_first()[j]) by {
                assert(x.drop_first()[j] == x[j + 1]);
            }
        }
        lema_espacios_sin_espacio(x.drop_first());
        assert(seq![x[0]] + x.drop_first() =~= x);
        assert(seq![x.drop_first()].update(0, seq![x[0]] + x.drop_first()) =~= seq![x]);
    }
}

proof fn lema_espacios_tras_espacio(x: Seq<char>, y: Seq<char>)
    requires
        sin_espacios(x),
    ensures
        partir_espacios(x + seq![' '] + y) == seq![x] + partir_espacios(y),
    decreases x.len(),
{
    let s = x + seq![' '] + y;
    if x.len() == 0 {
        assert(s =~= seq![' '] + y);
        assert(es_espacio(' '));
        assert(s[0] == ' ');
        assert(s.drop_first() =~= y);
    } else {
        assert(s[0] == x[0]);
        assert(!es_espacio(x[0]));
        let x1 = x.drop_first();
        assert(sin_espacios(x1)) by {
            assert forall|j: int| 0 <= j < x1.len() implies !es_espacio(#[trigger] x1[j]) by {
                assert(x1[j] == x[j + 1]);
            }
        }
        lema_espacios_tras_espacio(x1, y);
        assert(s.drop_first() =~= x1 + seq![' '] + y);
        let r = seq![x1] + partir_espacios(y);
        assert(seq![x[0]] + x1 =~= x);
        assert(r.update(0, seq![s[0]] + r[0]) =~= seq![x] + partir_espacios(y));
    }
}

/// The words of words joined by single spaces are those words, when each
/// is non-empty and holds no whitespace.
pub proof fn ley_palabras_unir(t: Seq<Seq<char>>)
    requires
        t.len() >= 1,
        forall|k: int| 0 <= k < t.len() ==> no_vacia(#[trigger] t[k]) && sin_espacios(t[k]),
    ensures
        palabras(unir(t, seq![' '])) == t,
{
    lema_espacios_unir(t);
    lema_filtro_todo(t, |x: Seq<char>| no_vacia(x));
}

proof fn lema_espacios_unir(t: Seq<Seq<char>>)
    requires
        t.len() >= 1,
        forall|k: int| 0 <= k < t.len() ==> no_vacia(#[trigger] t[k]) && sin_espacios(t[k]),
    ensures
        partir_espacios(unir(t, seq![' '])) == t,
    decreases t.len(),
{
    assert(no_vacia(t[0]) && sin_espacios(t[0]));
    if t.len() == 1 {
        lema_espacios_sin_espacio(t[0]);
        assert(seq![t[0]] =~= t);
    } else {
        let resto = t.drop_first();
        assert forall|k: int| 0 <= k < resto.len() implies no_vacia(#[trigger] resto[k]) && sin_espacios(resto[k]) by {
            assert(resto[k] == t[k + 1]);
        }
        lema_espacios_unir(resto);
        assert(seq![t[0]] + resto =~= t);
        lema_unir_cons(t[0], resto, seq![' ']);
        lema_espacios_tras_espacio(t[0], unir(resto, seq![' ']));
    }
}

proof fn lema_tramos_de_un_tramo(t: Seq<Seq<char>>, claves: Seq<Seq<char>>)
    requires
        t.len() >= 1,
        forall|k: int| 0 <= k < t.len() ==> !es_clave(#[trigger] t[k], claves),
    ensures
        tramos(t, claves) == seq![t],
    decreases t.len(),
{
    assert(!es_clave(t[t.len() - 1], claves));
    if t.len() == 1 {
        assert(t.drop_last() =~= Seq::<Seq<char>>::empty());
        assert(tramos(t.drop_last(), claves) == Seq::<Seq<Seq<char>>>::empty());
        assert(tramos(t, claves) == tramos(t.drop_last(), claves).push(seq![t.last()]));
        assert(seq![t.last()] =~= t);
        assert(Seq::<Seq<Seq<char>>>::empty().push(t) =~= seq![t]);
    } else {
        let r = t.drop_last();
        assert forall|k: int| 0 <= k < r.len() implies !es_clave(#[trigger] r[k], claves) by {
            assert(r[k] == t[k]);
        }
        lema_tramos_de_un_tramo(r, claves);
        assert(!es_clave(t[t.len() - 2], claves));
        assert(r.push(t.last()) =~= t);
        let tr = tramos(r, claves);
        assert(tr.len() == 1 && tr.last() == r);
        assert(tramos(t, claves) == tr.update(tr.len() - 1, tr.last().push(t.last())));
        assert(seq![r].update(0, r.push(t.last())) =~= seq![t]);
    }
}

/// Cutting a section of a command at the same keywords again gives that
/// section back whole.
pub proof fn ley_secciones_estables(sql: Seq<char>, claves: Seq<Seq<char>>, k: int)
    requires
        0 <= k < secciones(sql, claves).len(),
    ensures
        secciones(secciones(sql, claves)[k], claves) == seq![secciones(sql, claves)[k]],
{
    let ws = palabras(sql);
    let ts = tramos(ws, claves);
    lema_tramos(ws, claves);
    lema_palabras(sql);
    let t = ts[k];
    assert(t.len() > 0);
    assert forall|j: int| 0 <= j < t.len() implies no_vacia(#[trigger] t[j]) && sin_espacios(t[j]) by {
        let i = choose|i: int| 0 <= i < ws.len() && ws[i] == ts[k][j];
        assert(no_vacia(ws[i]) && sin_espacios(ws[i]));
    }
    assert forall|j: int| 0 <= j < t.len() implies !es_clave(#[trigger] t[j], claves) by {
        assert(!es_clave(ts[k][j], claves));
    }
    let e = secciones(sql, claves)[k];
    assert(e == unir(t, seq![' ']));
    ley_palabras_unir(t);
    lema_tramos_de_un_tramo(t, claves);
    assert(secciones(e, claves) =~= seq![unir(t, seq![' '])]);
}


proof fn lema_inicio_limpio(s: Seq<char>)
    ensures
        sin_espacios_inicio(s).len() == 0 || !es_espacio(sin_espacios_inicio(s)[0]),
    decreases s.len(),
{
    if s.len() > 0 && es_espacio(s[0]) {
        lema_inicio_limpio(s.drop_first());
    }
}

proof fn lema_fin_limpio(s: Seq<char>)
    ensures
        sin_espacios_fin(s).len() <= s.len(),
        sin_espacios_fin(s) == s.take(sin_espacios_fin(s).len() as int),
        sin_espacios_fin(s).len() == 0 || !es_espacio(sin_espacios_fin(s).last()),
    decreases s.len(),
{
    if s.len() > 0 && es_espacio(s.last()) {
        lema_fin_limpio(s.drop_last());
        let n = sin_espacios_fin(s).len() as int;
        assert(s.drop_last().take(n) =~= s.take(n));
    } else {
        assert(s.take(s.len() as int) =~= s);
    }
}

/// Trimming twice is trimming once.
pub proof fn ley_recortar_idempotente(s: Seq<char>)
    ensures
        recortar(recortar(s)) == recortar(s),
{
    let a = sin_espacios_inicio(s);
    let t = recortar(s);
    lema_inicio_limpio(s);
    lema_fin_limpio(a);
    if t.len() > 0 {
        assert(t == a.take(t.len() as int));
        assert(t[0] == a[0]);
        lema_sin_inicio(t, 0);
        assert(t.skip(0) =~= t);
        assert(t[t.len() - 1] == t.last());
        lema_sin_fin(t, t.len() as int);
        assert(t.take(t.len() as int) =~= t);
    } else {
        lema_sin_inicio(t, 0);
        lema_sin_fin(t, 0);
        assert(t.take(0) =~= t);
    }
}

/// A comparison as the `WHERE` parser builds it: a group has no column;
/// any other comparison has the operator `mayor`, `menor` or `igual` and a
/// trimmed column and value.
pub open spec fn condicion_valida(c: Condicion) -> bool {
    ||| c.operador == "grupo"@ && c.columna == Seq::<char>::empty()
    ||| {
        &&& (c.operador == "mayor"@ || c.operador == "menor"@ || c.operador == "igual"@)
        &&& recortar(c.columna) == c.columna
        &&& recortar(c.valor) == c.valor
    }
}

/// Every comparison of the parser state, open groups included, is valid.
pub open spec fn estado_valido(e: EstadoParser) -> bool {
    &&& forall|k: int| 0 <= k < e.condiciones.len() ==> condicion_valida(#[trigger] e.condiciones[k])
    &&& forall|i: int, k: int|
        0 <= i < e.pila.len() && 0 <= k < e.pila[i].0.len() ==> condicion_valida(
            #[trigger] e.pila[i].0[k],
        )
}

proof fn lema_paso_valido(e: EstadoParser, ficha: Seq<char>)
    requires
        estado_valido(e),
    ensures
        estado_valido(paso(e, ficha)),
{
    let t = recortar(ficha);
    let n = paso(e, ficha);
    if t == "("@ {
        assert forall|i: int, k: int|
            0 <= i < n.pila.len() && 0 <= k < n.pila[i].0.len() implies condicion_valida(
            #[trigger] n.pila[i].0[k],
        ) by {
            if i < e.pila.len() {
                assert(n.pila[i] == e.pila[i]);
            } else {
                assert(n.pila[i].0 == e.condiciones);
            }
        }
    } else if t == ")"@ {
        if e.pila.len() > 0 {
            let g = grupo(crate::sql_predicate::Predicado { condiciones: e.condiciones, operadores: e.operadores });
            assert(condicion_valida(g));
            let arriba = e.pila.last().0;
            assert(e.pila.last() == e.pila[e.pila.len() - 1]);
            assert forall|k: int| 0 <= k < n.condiciones.len() implies condicion_valida(
                #[trigger] n.condiciones[k],
            ) by {
                if k < arriba.len() {
                    assert(n.condiciones[k] == e.pila[e.pila.len() - 1].0[k]);
                }
            }
            assert forall|i: int, k: int|
                0 <= i < n.pila.len() && 0 <= k < n.pila[i].0.len() implies condicion_valida(
                #[trigger] n.pila[i].0[k],
            ) by {
                assert(n.pila[i] == e.pila[i]);
            }
        }
    } else if t == "AND"@ || t == "OR"@ {
    } else {
        match operacion(t) {
            Some(x) => {
                assert(condicion_valida(n.condiciones.last())) by {
                    let i = crate::texto::indice_de(t, '>');
                    let j = crate::texto::indice_de(t, '<');
                    let m = crate::texto::indice_de(t, '=');
                    let corte_en = if i >= 0 { i } else if j >= 0 { j } else { m };
                    ley_recortar_idempotente(t.take(corte_en));
                    ley_recortar_idempotente(t.skip(corte_en + 1));
                }
                assert forall|k: int| 0 <= k < n.condiciones.len() implies condicion_valida(
                    #[trigger] n.condiciones[k],
                ) by {
                    if k < e.condiciones.len() {
                        assert(n.condiciones[k] == e.condiciones[k]);
                    }
                }
            },
            None => {},
        }
    }
}

proof fn lema_analizar_valido(fs: Seq<Seq<char>>)
    ensures
        estado_valido(analizar(fs)),
    decreases fs.len(),
{
    if fs.len() > 0 {
        lema_analizar_valido(fs.drop_last());
        lema_paso_valido(analizar(fs.drop_last()), fs.last());
    }
}

/// Every comparison that the `WHERE` parser gives is either a group with
/// no column, or a `mayor`, `menor` or `igual` comparison whose column and
/// value are trimmed.
pub proof fn ley_condiciones_validas(raw: Seq<char>)
    ensures
        forall|k: int|
            0 <= k < predicado(raw).condiciones.len() ==> condicion_valida(
                #[trigger] predicado(raw).condiciones[k],
            ),
{
    lema_analizar_valido(fichas(raw));
}


/// A `WHERE` token that is a connector: `AND` or `OR`, once trimmed.
pub open spec fn es_conector(t: Seq<char>) -> bool {
    recortar(t) == "AND"@ || recortar(t) == "OR"@
}

/// The operator of a connector token.
pub open spec fn conector(t: Seq<char>) -> SqlOperador {
    if recortar(t) == "AND"@ {
        SqlOperador::And
    } else {
        SqlOperador::Or
    }
}

/// A `WHERE` token that is a comparison: once trimmed, no bracket and no
/// connector, and it holds `>`, `<` or `=`.
pub open spec fn es_comparacion(t: Seq<char>) -> bool {
    let r = recortar(t);
    &&& r != "("@ && r != ")"@ && r != "AND"@ && r != "OR"@
    &&& operacion(r) is Some
}

/// The comparison that a comparison token gives.
pub open spec fn comparacion(t: Seq<char>) -> Condicion {
    let x = operacion(recortar(t)).unwrap();
    Condicion { columna: x.0, operador: x.1, valor: x.2 }
}

/// Tokens that alternate comparison, connector, comparison, ..., ending
/// with a comparison.
pub open spec fn alternan(fs: Seq<Seq<char>>) -> bool {
    &&& fs.len() % 2 == 1
    &&& forall|k: int| 0 <= k < fs.len() && k % 2 == 0 ==> es_comparacion(#[trigger] fs[k])
    &&& forall|k: int| 0 <= k < fs.len() && k % 2 == 1 ==> es_conector(#[trigger] fs[k])
}

proof fn lema_alternan_prefijo(fs: Seq<Seq<char>>, n: int)
    requires
        0 <= n <= fs.len(),
        forall|k: int| 0 <= k < fs.len() && k % 2 == 0 ==> es_comparacion(#[trigger] fs[k]),
        forall|k: int| 0 <= k < fs.len() && k % 2 == 1 ==> es_conector(#[trigger] fs[k]),
    ensures
        ({
            let e = analizar(fs.take(n));
            &&& e.pila.len() == 0
            &&& e.condiciones.len() == (n + 1) / 2
            &&& e.operadores.len() == n / 2
            &&& forall|j: int| 0 <= j < e.condiciones.len() ==> #[trigger] e.condiciones[j] == comparacion(fs[2 * j])
            &&& forall|j: int| 0 <= j < e.operadores.len() ==> #[trigger] e.operadores[j] == conector(fs[2 * j + 1])
        }),
    decreases n,
{
    if n == 0 {
        assert(fs.take(0) =~= Seq::<Seq<char>>::empty());
    } else {
        lema_alternan_prefijo(fs, n - 1);
        let p = analizar(fs.take(n - 1));
        assert(fs.take(n).drop_last() =~= fs.take(n - 1));
        assert(fs.take(n).last() == fs[n - 1]);
        let t = recortar(fs[n - 1]);
        let e = analizar(fs.take(n));
        assert(e == paso(p, fs[n - 1]));
        if (n - 1) % 2 == 0 {
            assert(es_comparacion(fs[n - 1]));
            assert(e.condiciones == p.condiciones.push(comparacion(fs[n - 1])));
            assert forall|j: int| 0 <= j < e.condiciones.len() implies #[trigger] e.condiciones[j] == comparacion(fs[2 * j]) by {
                if j < p.condiciones.len() {
                    assert(e.condiciones[j] == p.condiciones[j]);
                } else {
                    assert(2 * j == n - 1);
                }
            }
        } else {
            assert(es_conector(fs[n - 1]));
            reveal_strlit("AND");
            reveal_strlit("OR");
            reveal_strlit("(");
            reveal_strlit(")");
            assert(t != "("@ && t != ")"@);
            assert(e.operadores == p.operadores.push(conector(fs[n - 1])));
            assert forall|j: int| 0 <= j < e.operadores.len() implies #[trigger] e.operadores[j] == conector(fs[2 * j + 1]) by {
                if j < p.operadores.len() {
                    assert(e.operadores[j] == p.operadores[j]);
                } else {
                    assert(2 * j + 1 == n - 1);
                }
            }
        }
    }
}

/// When the tokens of a `WHERE` clause alternate comparison and connector,
/// the parser gives the comparisons in order and the connectors in order,
/// one more comparison than operators.
pub proof fn ley_forma_where(raw: Seq<char>)
    requires
        alternan(fichas(raw)),
    ensures
        ({
            let fs = fichas(raw);
            let p = predicado(raw);
            &&& p.condiciones.len() == p.operadores.len() + 1
            &&& p.condiciones.len() == (fs.len() + 1) / 2
            &&& forall|j: int| 0 <= j < p.condiciones.len() ==> #[trigger] p.condiciones[j] == comparacion(fs[2 * j])
            &&& forall|j: int| 0 <= j < p.operadores.len() ==> #[trigger] p.operadores[j] == conector(fs[2 * j + 1])
        }),
{
    let fs = fichas(raw);
    lema_alternan_prefijo(fs, fs.len() as int);
    assert(fs.take(fs.len() as int) =~= fs);
}


proof fn lema_inicio_sufijo(s: Seq<char>) -> (a: int)
    ensures
        0 <= a <= s.len(),
        sin_espacios_inicio(s) == s.skip(a),
    decreases s.len(),
{
    if s.len() > 0 && es_espacio(s[0]) {
        let b = lema_inicio_sufijo(s.drop_first());
        assert(s.drop_first().skip(b) =~= s.skip(b + 1));
        b + 1
    } else {
        assert(s.skip(0) =~= s);
        0
    }
}

proof fn lema_ocurrencia_contiene(s: Seq<char>, p: Seq<char>)
    requires
        primera_ocurrencia(s, p) >= 0,
    ensures
        primera_ocurrencia(s, p) <= s.len(),
        empieza_con(s.skip(primera_ocurrencia(s, p)), p),
    decreases s.len(),
{
    if empieza_con(s, p) {
        assert(s.skip(0) =~= s);
    } else if s.len() > 0 {
        let t = s.drop_first();
        lema_ocurrencia_contiene(t, p);
        assert(t.skip(primera_ocurrencia(t, p)) =~= s.skip(primera_ocurrencia(t, p) + 1));
    }
}

/// Trimming removes no occurrence of a pattern that was not there.
proof fn lema_recortar_contiene(c: Seq<char>, p: Seq<char>)
    requires
        contiene(recortar(c), p),
    ensures
        contiene(c, p),
{
    let a = lema_inicio_sufijo(c);
    let x = sin_espacios_inicio(c);
    lema_fin_limpio(x);
    let t = recortar(c);
    let i = choose|i: int| 0 <= i <= t.len() && #[trigger] empieza_con(t.skip(i), p);
    assert(t == c.skip(a).take(t.len() as int));
    assert(p.len() <= t.skip(i).len());
    assert(c.skip(a + i).take(p.len() as int) =~= t.skip(i).take(p.len() as int));
    assert(empieza_con(c.skip(a + i), p));
}

/// A `SELECT` without `SELECT` or `FROM`, or without `ORDER BY` and with
/// fewer than two sections (list and table) in its trimmed text, is
/// refused with `INVALID_SYNTAX`.
pub proof fn ley_select_mal_formado(c: Seq<char>, direccion: Seq<char>)
    requires
        !contiene(c, "SELECT"@) || !contiene(c, "FROM"@) || (!contiene(c, "ORDER BY"@) && secciones(
            recortar(c),
            claves_select(),
        ).len() < 2),
    ensures
        analisis_select(c, direccion) == Err::<Seleccion, Seq<char>>("INVALID_SYNTAX"@),
{
    if contiene(c, "SELECT"@) && contiene(c, "FROM"@) {
        let t = recortar(c);
        if primera_ocurrencia(t, "ORDER BY"@) >= 0 {
            lema_ocurrencia_contiene(t, "ORDER BY"@);
            lema_recortar_contiene(c, "ORDER BY"@);
        }
    }
}


/// A row of a `SELECT` result, split again at its commas, gives the row's
/// cells at the chosen positions, in order.
pub proof fn ley_fila_proyectada(fila: Seq<char>, sel: Seq<usize>)
    requires
        sel.len() >= 1,
        forall|k: int| 0 <= k < sel.len() ==> (#[trigger] sel[k]) < celdas(fila).len(),
    ensures
        celdas(proyeccion(celdas(fila), sel)) == sel.map_values(|i: usize| celdas(fila)[i as int]),
{
    reveal_strlit(",");
    assert(","@ =~= seq![',']);
    let cs = celdas(fila);
    let elegidas = sel.map_values(|i: usize| cs[i as int]);
    lema_piezas_sin_separador(fila, ',');
    assert forall|k: int| 0 <= k < elegidas.len() implies sin_caracter(#[trigger] elegidas[k], ',') by {
        assert(elegidas[k] == cs[sel[k] as int]);
    }
    ley_partir_unir(elegidas, ',');
}

} // verus!
