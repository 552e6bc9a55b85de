//! Rows of a CSV table: cells, the columns a command reads, and the
//! evaluation of a `WHERE` clause on each row.
use vstd::prelude::*;
use crate::parciar::vista_indices;
use crate::sql_conditions::{Condicion, SqlSelect};
use crate::sql_predicate::vista_condiciones;
use crate::texto::{
    caracteres, lema_partir_no_vacio, partir, partir_exec, recortar, recortar_exec, iguales,
    texto, textos, unir, unir_exec,
};

verus! {

broadcast use vstd::seq_lib::group_seq_properties;

/// The cells of a CSV line: the line cut at every comma.
pub open spec fn celdas(linea: Seq<char>) -> Seq<Seq<char>> {
    partir(linea, ","@)
}

/// The cells of a CSV line.
pub fn celdas_exec(linea: &str) -> (r: Vec<String>)
    ensures
        textos(r@) == celdas(linea@),
        r.len() >= 1,
{
    proof {
        reveal_strlit(",");
        lema_partir_no_vacio(linea@, ","@);
    }
    let piezas = partir_exec(&caracteres(linea), &caracteres(","));
    let ghost pv = piezas@.map_values(|x: Vec<char>| x@);
    let mut r: Vec<String> = Vec::new();
    let mut k: usize = 0;
    while k < piezas.len()
        invariant
            k <= piezas.len(),
            pv == piezas@.map_values(|x: Vec<char>| x@),
            textos(r@) == pv.take(k as int),
        decreases piezas.len() - k,
    {
        let ghost antes = textos(r@);
        let t = texto(&piezas[k]);
        r.push(t);
        assert(textos(r@) =~= antes.push(t@));
        assert(pv.take(k + 1) =~= pv.take(k as int).push(pv[k as int]));
        k = k + 1;
    }
    assert(pv.take(piezas.len() as int) =~= pv);
    r
}

/// The chosen cells of a row, joined by commas.
pub open spec fn proyeccion(celdas: Seq<Seq<char>>, idx: Seq<usize>) -> Seq<char> {
    unir(idx.map_values(|i: usize| celdas[i as int]), ","@)
}

/// Every chosen cell exists in the row.
pub open spec fn indices_en(idx: Seq<usize>, n: int) -> bool {
    forall|k: int| 0 <= k < idx.len() ==> (#[trigger] idx[k]) < n
}

/// The chosen cells of a row, joined by commas.
pub fn proyectar(celdas: &Vec<String>, idx: &Vec<usize>) -> (r: String)
    requires
        indices_en(idx@, celdas.len() as int),
    ensures
        r@ == proyeccion(textos(celdas@), idx@),
{
    let ghost cs = textos(celdas@);
    let mut elegidas: Vec<Vec<char>> = Vec::new();
    let mut k: usize = 0;
    while k < idx.len()
        invariant
            k <= idx.len(),
            cs == textos(celdas@),
            indices_en(idx@, celdas.len() as int),
            elegidas@.map_values(|x: Vec<char>| x@) == idx@.take(k as int).map_values(
                |i: usize| cs[i as int],
            ),
        decreases idx.len() - k,
    {
        let ghost antes = elegidas@.map_values(|x: Vec<char>| x@);
        let c = caracteres(celdas[idx[k]].as_str());
        elegidas.push(c);
        proof {
            assert(idx@[k as int] < celdas.len());
            assert(elegidas@.map_values(|x: Vec<char>| x@) =~= antes.push(cs[idx@[k as int] as int]));
            assert(idx@.take(k + 1) =~= idx@.take(k as int).push(idx@[k as int]));
            assert(idx@.take(k + 1).map_values(|i: usize| cs[i as int]) =~= idx@.take(k as int).map_values(|i: usize| cs[i as int]).push(cs[idx@[k as int] as int]));
        }
        k = k + 1;
    }
    assert(idx@.take(idx.len() as int) =~= idx@);
    proof {
        reveal_strlit(",");
    }
    let u = unir_exec(&elegidas, &caracteres(","));
    texto(&u)
}

/// A header column is chosen by a `SELECT` list when the list is empty
/// (all columns) or names the column (trimmed).
pub open spec fn elegida(columna: Seq<char>, select: Seq<Seq<char>>) -> bool {
    select.len() == 0 || select.contains(recortar(columna))
}

/// The positions among the first `n` header columns that are chosen.
pub open spec fn seleccion(encabezado: Seq<Seq<char>>, select: Seq<Seq<char>>, n: int) -> Seq<usize>
    decreases n,
{
    if n <= 0 {
        Seq::empty()
    } else if elegida(encabezado[n - 1], select) {
        seleccion(encabezado, select, n - 1).push((n - 1) as usize)
    } else {
        seleccion(encabezado, select, n - 1)
    }
}

fn contiene_texto(lista: &Vec<String>, x: &Vec<char>) -> (b: bool)
    ensures
        b == textos(lista@).contains(x@),
{
    let ghost ls = textos(lista@);
    let mut j: usize = 0;
    while j < lista.len()
        invariant
            j <= lista.len(),
            ls == textos(lista@),
            forall|i: int| 0 <= i < j ==> ls[i] != x@,
        decreases lista.len() - j,
    {
        if iguales(&caracteres(lista[j].as_str()), x) {
            assert(ls[j as int] == x@);
            return true;
        }
        j = j + 1;
    }
    false
}

/// The positions of the chosen header columns.
pub fn seleccion_exec(encabezado: &Vec<String>, select: &Vec<String>) -> (r: Vec<usize>)
    ensures
        r@ == seleccion(textos(encabezado@), textos(select@), encabezado.len() as int),
{
    let ghost enc = textos(encabezado@);
    let ghost sel = textos(select@);
    let mut r: Vec<usize> = Vec::new();
    let mut i: usize = 0;
    while i < encabezado.len()
        invariant
            i <= encabezado.len(),
            enc == textos(encabezado@),
            sel == textos(select@),
            r@ == seleccion(enc, sel, i as int),
        decreases encabezado.len() - i,
    {
        let columna = recortar_exec(&caracteres(encabezado[i].as_str()));
        assert(enc[i as int] == encabezado@[i as int]@);
        if select.len() == 0 || contiene_texto(select, &columna) {
            r.push(i);
        }
        i = i + 1;
    }
    r
}

/// The comparisons that name one column (trimmed on both sides), paired
/// with the column's position, in the order of the clause.
pub open spec fn coincidencias(columna: Seq<char>, i: usize, conds: Seq<Condicion>) -> Seq<
    (usize, Condicion),
> {
    conds.filter(|c: Condicion| recortar(c.columna) == recortar(columna)).map_values(
        |c: Condicion| (i, c),
    )
}

/// The comparisons matched to the first `n` header columns: column by
/// column, and for each column in the order of the clause.
pub open spec fn emparejar(encabezado: Seq<Seq<char>>, conds: Seq<Condicion>, n: int) -> Seq<
    (usize, Condicion),
>
    decreases n,
{
    if n <= 0 {
        Seq::empty()
    } else {
        emparejar(encabezado, conds, n - 1) + coincidencias(
            encabezado[n - 1],
            (n - 1) as usize,
            conds,
        )
    }
}

pub proof fn lema_emparejar_vacio(encabezado: Seq<Seq<char>>, n: int)
    ensures
        emparejar(encabezado, Seq::empty(), n) == Seq::<(usize, Condicion)>::empty(),
    decreases n,
{
    if n > 0 {
        lema_emparejar_vacio(encabezado, n - 1);
        let f = |c: Condicion| recortar(c.columna) == recortar(encabezado[n - 1]);
        assert(Seq::<Condicion>::empty().filter(f) =~= Seq::<Condicion>::empty()) by {
            reveal(Seq::filter);
        }
        assert(emparejar(encabezado, Seq::empty(), n) =~= Seq::<(usize, Condicion)>::empty());
    }
}

/// The comparisons of a clause matched to the header's columns.
pub fn emparejar_exec<'a>(encabezado: &Vec<String>, conds: &'a Vec<SqlSelect>) -> (r: Vec<
    (usize, &'a SqlSelect),
>)
    ensures
        vista_indices(r@) == emparejar(
            textos(encabezado@),
            vista_condiciones(conds@),
            encabezado.len() as int,
        ),
{
    let ghost enc = textos(encabezado@);
    let ghost cs = vista_condiciones(conds@);
    let mut r: Vec<(usize, &'a SqlSelect)> = Vec::new();
    let mut i: usize = 0;
    while i < encabezado.len()
        invariant
            i <= encabezado.len(),
            enc == textos(encabezado@),
            cs == vista_condiciones(conds@),
            vista_indices(r@) == emparejar(enc, cs, i as int),
        decreases encabezado.len() - i,
    {
        let columna = recortar_exec(&caracteres(encabezado[i].as_str()));
        assert(enc[i as int] == encabezado@[i as int]@);
        let ghost base = vista_indices(r@);
        let ghost f = |c: Condicion| recortar(c.columna) == recortar(enc[i as int]);
        let ghost g = |c: Condicion| (i, c);
        let mut j: usize = 0;
        assert(cs.take(0).filter(f) =~= Seq::<Condicion>::empty());
        while j < conds.len()
            invariant
                i < encabezado.len(),
                j <= conds.len(),
                cs == vista_condiciones(conds@),
                enc == textos(encabezado@),
                columna@ == recortar(enc[i as int]),
                f == (|c: Condicion| recortar(c.columna) == recortar(enc[i as int])),
                g == (|c: Condicion| (i, c)),
                vista_indices(r@) == base + cs.take(j as int).filter(f).map_values(g),
            decreases conds.len() - j,
        {
            let ghost antes = vista_indices(r@);
            proof {
                assert(cs.take(j + 1) =~= cs.take(j as int).push(cs[j as int]));
                cs.take(j as int).lemma_filter_push(cs[j as int], f);
                assert(cs[j as int] == conds@[j as int]@);
            }
            let cc = recortar_exec(&caracteres(conds[j].columna.as_str()));
            if iguales(&cc, &columna) {
                r.push((i, &conds[j]));
                assert(vista_indices(r@) =~= antes.push((i, cs[j as int])));
                assert(cs.take(j as int).filter(f).push(cs[j as int]).map_values(g) =~= cs.take(
                    j as int,
                ).filter(f).map_values(g).push(g(cs[j as int])));
            }
            j = j + 1;
        }
        assert(cs.take(conds.len() as int) =~= cs);
        assert(vista_indices(r@) =~= emparejar(enc, cs, i + 1));
        i = i + 1;
    }
    r
}

/// The position of the last header column (trimmed) equal to `columna`
/// among the first `n`.
pub open spec fn posicion_columna(encabezado: Seq<Seq<char>>, columna: Seq<char>, n: int) -> Option<
    usize,
>
    decreases n,
{
    if n <= 0 {
        None
    } else if recortar(encabezado[n - 1]) == columna {
        Some((n - 1) as usize)
    } else {
        posicion_columna(encabezado, columna, n - 1)
    }
}

/// The position of the last header column (trimmed) equal to `columna`.
pub fn posicion_columna_exec(encabezado: &Vec<String>, columna: &String) -> (r: Option<usize>)
    ensures
        r == posicion_columna(textos(encabezado@), columna@, encabezado.len() as int),
        r matches Some(i) ==> i < encabezado.len(),
{
    let ghost enc = textos(encabezado@);
    let buscada = caracteres(columna.as_str());
    let mut i: usize = encabezado.len();
    while i > 0
        invariant
            i <= encabezado.len(),
            enc == textos(encabezado@),
            buscada@ == columna@,
            posicion_columna(enc, columna@, encabezado.len() as int) == posicion_columna(
                enc,
                columna@,
                i as int,
            ),
        decreases i,
    {
        let c = recortar_exec(&caracteres(encabezado[i - 1].as_str()));
        assert(enc[i - 1] == encabezado@[i - 1]@);
        if iguales(&c, &buscada) {
            return Some(i - 1);
        }
        i = i - 1;
    }
    None
}

/// How a command that rewrites a table leaves it.
pub enum Reescritura {
    /// The table stays as it is.
    SinCambios,
    /// The table's new lines.
    Contenido(Vec<String>),
    /// A row lacks a cell that the command reads.
    FilaIncompleta,
}

} // verus!
