//! What a `WHERE` clause decides, and how the commands share that decision.
use vstd::prelude::*;
use crate::delete::{linea_encabezado, salida_delete, Borrado};
use crate::filas::{celdas, emparejar, posicion_columna, proyeccion, seleccion};
use crate::parciar::{acumulado, celda_limpia, cumple, evaluacion, valor_limpio};
use crate::select::{celdas_encabezado, indices_filtro, pasa_filtro, Seleccion};
use crate::sql_conditions::Condicion;
use crate::sql_predicate::SqlOperador;
use crate::texto::{entero_i32, es_digito, recortar, todos_digitos, valor_digitos};
use crate::update::{encabezado_salida, fila_actualizada, indices_update, salida_update, Actualizacion};

verus! {

broadcast use vstd::seq_lib::group_seq_properties;

/// One comparison on a row: `mayor`, `menor` and `igual` compare as
/// numbers, strictly for `mayor` and `menor`, when the cleaned cell and
/// the cleaned value both read as `i32`; otherwise only `igual` can hold,
/// exactly when the cleaned texts are equal; a group never holds.
pub proof fn ley_comparacion(columnas: Seq<Seq<char>>, index: int, c: Condicion)
    ensures
        c.operador == "grupo"@ ==> !cumple(columnas, index, c),
        c.operador != "grupo"@ ==> ({
            let cv = celda_limpia(columnas[index]);
            let fv = valor_limpio(c.valor);
            match (entero_i32(cv), entero_i32(fv)) {
                (Some(a), Some(b)) => {
                    &&& (c.operador == "menor"@ ==> (cumple(columnas, index, c) <==> a < b))
                    &&& (c.operador == "mayor"@ ==> (cumple(columnas, index, c) <==> a > b))
                    &&& (c.operador == "igual"@ ==> (cumple(columnas, index, c) <==> a == b))
                },
                _ => cumple(columnas, index, c) <==> (c.operador == "igual"@ && cv == fv),
            }
        }),
{
    reveal_strlit("grupo");
    reveal_strlit("mayor");
    reveal_strlit("menor");
    reveal_strlit("igual");
    assert("mayor"@[1] != "menor"@[1]);
    assert("mayor"@[0] != "igual"@[0]);
    assert("menor"@[0] != "igual"@[0]);
    assert("grupo"@[0] != "igual"@[0]);
    assert("grupo"@[0] != "mayor"@[0]);
    assert("grupo"@[0] != "menor"@[0]);
}

/// With two or more matched comparisons, the `n`-th operator (from 1)
/// brings in comparison `n` and joins it to the value so far by exactly
/// that operator: conjunction for `AND`, disjunction for `OR`, whatever
/// the operators before it; before any operator the value is that of the
/// first comparison.
pub proof fn ley_paso_de_operador(
    columnas: Seq<Seq<char>>,
    idx: Seq<(usize, Condicion)>,
    ops: Seq<SqlOperador>,
    n: int,
)
    requires
        idx.len() >= 2,
        1 <= n <= ops.len(),
    ensures
        acumulado(columnas, idx, ops, 0) == cumple(columnas, idx[0].0 as int, idx[0].1),
        ops[n - 1] == SqlOperador::And ==> (acumulado(columnas, idx, ops, n) == (acumulado(
            columnas,
            idx,
            ops,
            n - 1,
        ) && cumple(columnas, idx[n].0 as int, idx[n].1))),
        ops[n - 1] == SqlOperador::Or ==> (acumulado(columnas, idx, ops, n) == (acumulado(
            columnas,
            idx,
            ops,
            n - 1,
        ) || cumple(columnas, idx[n].0 as int, idx[n].1))),
{
}

proof fn lema_acumulado_prefijo(
    columnas: Seq<Seq<char>>,
    idx: Seq<(usize, Condicion)>,
    ops: Seq<SqlOperador>,
    m: int,
    n: int,
)
    requires
        0 <= n <= m <= ops.len(),
    ensures
        acumulado(columnas, idx, ops, n) == acumulado(columnas, idx, ops.take(m), n),
    decreases n,
{
    if n > 0 {
        lema_acumulado_prefijo(columnas, idx, ops, m, n - 1);
        assert(ops.take(m)[n - 1] == ops[n - 1]);
    }
}

/// A clause of several matched comparisons with one operator more at its
/// end evaluates to the clause without it, joined by that operator to the
/// comparison it brings in.
pub proof fn ley_operador_final(
    columnas: Seq<Seq<char>>,
    idx: Seq<(usize, Condicion)>,
    ops: Seq<SqlOperador>,
)
    requires
        idx.len() >= 2,
        ops.len() >= 1,
    ensures
        ops.last() == SqlOperador::And ==> (evaluacion(columnas, idx, ops) == (evaluacion(
            columnas,
            idx,
            ops.drop_last(),
        ) && cumple(columnas, idx[ops.len() as int].0 as int, idx[ops.len() as int].1))),
        ops.last() == SqlOperador::Or ==> (evaluacion(columnas, idx, ops) == (evaluacion(
            columnas,
            idx,
            ops.drop_last(),
        ) || cumple(columnas, idx[ops.len() as int].0 as int, idx[ops.len() as int].1))),
{
    let n = ops.len() as int;
    lema_acumulado_prefijo(columnas, idx, ops, n - 1, n - 1);
    assert(ops.take(n - 1) =~= ops.drop_last());
    ley_paso_de_operador(columnas, idx, ops, n);
}

proof fn lema_posicion(encabezado: Seq<Seq<char>>, columna: Seq<char>, n: int)
    requires
        0 <= n <= encabezado.len(),
        encabezado.len() <= usize::MAX,
    ensures
        posicion_columna(encabezado, columna, n) matches Some(i) ==> {
            &&& 0 <= i < n
            &&& recortar(encabezado[i as int]) == columna
            &&& forall|j: int| i < j < n ==> recortar(#[trigger] encabezado[j]) != columna
        },
        posicion_columna(encabezado, columna, n) is None ==> forall|j: int|
            0 <= j < n ==> recortar(#[trigger] encabezado[j]) != columna,
    decreases n,
{
    if n > 0 {
        lema_posicion(encabezado, columna, n - 1);
        if recortar(encabezado[n - 1]) == columna {
            assert(posicion_columna(encabezado, columna, n) == Some((n - 1) as usize));
        } else {
            assert(posicion_columna(encabezado, columna, n) == posicion_columna(encabezado, columna, n - 1));
            if let Some(i) = posicion_columna(encabezado, columna, n) {
                assert forall|j: int| i < j < n implies recortar(#[trigger] encabezado[j]) != columna by {
                    if j == n - 1 {
                    }
                }
            }
        }
    }
}

/// The `ORDER BY` column is found at the last header cell that, trimmed,
/// equals it, whatever its place (the last cell included); it is not found
/// only when no header cell equals it.
pub proof fn ley_posicion_columna(encabezado: Seq<Seq<char>>, columna: Seq<char>)
    requires
        encabezado.len() <= usize::MAX,
    ensures
        posicion_columna(encabezado, columna, encabezado.len() as int) matches Some(i) ==> {
            &&& 0 <= i < encabezado.len()
            &&& recortar(encabezado[i as int]) == columna
            &&& forall|j: int| i < j < encabezado.len() ==> recortar(#[trigger] encabezado[j]) != columna
        },
        posicion_columna(encabezado, columna, encabezado.len() as int) is None <==> forall|j: int|
            0 <= j < encabezado.len() ==> recortar(#[trigger] encabezado[j]) != columna,
{
    lema_posicion(encabezado, columna, encabezado.len() as int);
}

/// An `UPDATE` and a `SELECT` with the same `WHERE` clause agree row by
/// row: the `UPDATE` writes the header, then rewrites exactly the rows that
/// the `SELECT` returns and writes every other row unchanged, in order.
pub proof fn ley_update_como_select(
    s: Seleccion,
    u: Actualizacion,
    encabezado: Option<Seq<char>>,
    lineas: Seq<Seq<char>>,
)
    requires
        s.filtro == u.filtro,
        u.filtro is Some,
    ensures
        ({
            let enc = celdas_encabezado(encabezado);
            let ed = indices_update(u, encabezado).1;
            let out = salida_update(u, encabezado, lineas);
            let h = encabezado_salida(encabezado).len() as int;
            &&& out.len() == h + lineas.len()
            &&& out.take(h) == encabezado_salida(encabezado)
            &&& forall|k: int|
                0 <= k < lineas.len() ==> #[trigger] out[h + k] == if pasa_filtro(
                    lineas[k],
                    s.filtro,
                    indices_filtro(enc, s.filtro),
                ) {
                    fila_actualizada(lineas[k], ed)
                } else {
                    lineas[k]
                }
        }),
{
    let out = salida_update(u, encabezado, lineas);
    let h = encabezado_salida(encabezado).len() as int;
    assert(out.take(h) =~= encabezado_salida(encabezado));
}

/// A `DELETE` writes the header, then exactly the rows that a `SELECT`
/// with the same `WHERE` clause does not return, in order, each reduced to
/// the header's columns, when a comparison of the clause names a column.
pub proof fn ley_delete_como_select(
    s: Seleccion,
    d: Borrado,
    encabezado: Option<Seq<char>>,
    lineas: Seq<Seq<char>>,
)
    requires
        s.filtro == Some(d.filtro),
        ({
            let enc = celdas_encabezado(encabezado);
            emparejar(enc, d.filtro.condiciones, enc.len() as int).len() > 0
        }),
    ensures
        ({
            let enc = celdas_encabezado(encabezado);
            let sel = seleccion(enc, Seq::empty(), enc.len() as int);
            salida_delete(d, encabezado, lineas) == Some(
                seq![linea_encabezado(encabezado)] + lineas.filter(
                    |f: Seq<char>| !pasa_filtro(f, s.filtro, indices_filtro(enc, s.filtro)),
                ).map_values(|f: Seq<char>| proyeccion(celdas(f), sel)),
            )
        }),
{
    let enc = celdas_encabezado(encabezado);
    let idx = emparejar(enc, d.filtro.condiciones, enc.len() as int);
    if d.filtro.condiciones.len() == 0 {
        crate::filas::lema_emparejar_vacio(enc, enc.len() as int);
        assert(d.filtro.condiciones =~= Seq::<Condicion>::empty());
    }
    let f1 = |f: Seq<char>| !pasa_filtro(f, s.filtro, indices_filtro(enc, s.filtro));
    let f2 = |f: Seq<char>| !evaluacion(celdas(f), idx, d.filtro.operadores);
    assert(f1 =~= f2);
}


/// Reading a number: decimal digits, with an optional leading `+` or `-`,
/// give their value with that sign when it fits in an `i32`; an empty
/// text, a lone sign, or any other character than a digit after the
/// optional sign gives nothing; a value read always fits in an `i32`.
pub proof fn ley_entero(d: Seq<char>, s: Seq<char>)
    requires
        d.len() > 0,
        todos_digitos(d),
    ensures
        valor_digitos(d) <= i32::MAX ==> entero_i32(d) == Some(valor_digitos(d)),
        valor_digitos(d) <= i32::MAX ==> entero_i32(seq!['+'] + d) == Some(valor_digitos(d)),
        -valor_digitos(d) >= i32::MIN ==> entero_i32(seq!['-'] + d) == Some(-valor_digitos(d)),
        valor_digitos(d) > i32::MAX ==> entero_i32(d) is None,
        entero_i32(Seq::empty()) is None,
        entero_i32(seq!['-']) is None && entero_i32(seq!['+']) is None,
        (exists|j: int| 0 <= j < s.len() && !es_digito(#[trigger] s[j]) && !(j == 0 && (s[0] == '+' || s[0] == '-')))
            ==> entero_i32(s) is None,
        entero_i32(s) matches Some(v) ==> i32::MIN <= v <= i32::MAX,
{
    assert(es_digito(d[0]));
    crate::texto::lema_valor_creciente(d, 0);
    assert(d[0] != '-' && d[0] != '+');
    assert((seq!['+'] + d).drop_first() =~= d);
    assert((seq!['-'] + d).drop_first() =~= d);
    assert(seq!['-'].drop_first() =~= Seq::<char>::empty());
    assert(seq!['+'].drop_first() =~= Seq::<char>::empty());
    if exists|j: int| 0 <= j < s.len() && !es_digito(#[trigger] s[j]) && !(j == 0 && (s[0] == '+' || s[0] == '-')) {
        let j = choose|j: int| 0 <= j < s.len() && !es_digito(#[trigger] s[j]) && !(j == 0 && (s[0] == '+' || s[0] == '-'));
        if s.len() > 0 && (s[0] == '-' || s[0] == '+') {
            assert(s.drop_first()[j - 1] == s[j]);
        }
    }
}


/// The value of decimal digits read from the left: the first digit counts
/// ten to the power of the number of digits after it.
pub proof fn ley_valor_digitos(c: char, d: Seq<char>)
    ensures
        valor_digitos(seq![c] + d) == ((c as u32) - 48) * vstd::arithmetic::power::pow(10, d.len())
            + valor_digitos(d),
    decreases d.len(),
{
    reveal(vstd::arithmetic::power::pow);
    let x = seq![c] + d;
    let a: int = (c as u32) - 48;
    if d.len() == 0 {
        assert(x.drop_last() =~= Seq::<char>::empty());
        assert(x.last() == c);
        assert(vstd::arithmetic::power::pow(10, 0) == 1);
    } else {
        let d1 = d.drop_last();
        ley_valor_digitos(c, d1);
        assert(x.drop_last() =~= seq![c] + d1);
        assert(x.last() == d.last());
        let p = vstd::arithmetic::power::pow(10, d1.len());
        assert(vstd::arithmetic::power::pow(10, d.len()) == 10 * p);
        let v1 = valor_digitos(d1);
        let l: int = (d.last() as u32) - 48;
        assert((a * p + v1) * 10 + l == a * (10 * p) + (v1 * 10 + l)) by (nonlinear_arith);
    }
}


/// With no matched comparison a clause never holds; with a single one
/// (and at most one operator) it holds exactly when that comparison does.
pub proof fn ley_pocas_comparaciones(
    columnas: Seq<Seq<char>>,
    idx: Seq<(usize, Condicion)>,
    ops: Seq<SqlOperador>,
)
    ensures
        idx.len() == 0 ==> !evaluacion(columnas, idx, ops),
        idx.len() == 1 && ops.len() <= 1 ==> (evaluacion(columnas, idx, ops) == cumple(
            columnas,
            idx[0].0 as int,
            idx[0].1,
        )),
{
    if idx.len() == 1 && ops.len() == 1 {
        assert(acumulado(columnas, idx, ops, 0) == cumple(columnas, idx[0].0 as int, idx[0].1));
    }
}

/// Removing every occurrence of one character keeps the other characters,
/// in order.
pub proof fn ley_quitar_caracter(s: Seq<char>, c: char)
    ensures
        crate::texto::reemplazar(s, seq![c], Seq::empty()) == s.filter(|x: char| x != c),
    decreases s.len(),
{
    let f = |x: char| x != c;
    if s.len() == 0 {
        reveal(Seq::filter);
    } else {
        let resto = s.drop_first();
        assert(s =~= seq![s[0]] + resto);
        Seq::filter_distributes_over_add(seq![s[0]], resto, f);
        reveal_with_fuel(Seq::filter, 2);
        assert(seq![s[0]].drop_last() =~= Seq::<char>::empty());
        if s[0] == c {
            assert(s.take(1) =~= seq![c]);
            assert(s.skip(1) =~= resto);
            ley_quitar_caracter(resto, c);
            assert(Seq::<char>::empty() + resto.filter(f) =~= resto.filter(f));
        } else {
            assert(s.take(1)[0] == s[0]);
            ley_quitar_caracter(resto, c);
        }
    }
}

/// A cell is compared without its spaces; a value without its `;`,
/// spaces and single quotes; every other character stays, in order.
pub proof fn ley_limpieza(celda: Seq<char>, valor: Seq<char>)
    ensures
        celda_limpia(celda) == celda.filter(|x: char| x != ' '),
        valor_limpio(valor) == valor.filter(|x: char| x != ';').filter(|x: char| x != ' ').filter(
            |x: char| x != '\'',
        ),
{
    reveal_strlit(" ");
    reveal_strlit(";");
    reveal_strlit("'");
    reveal_strlit("");
    assert(" "@ =~= seq![' ']);
    assert(";"@ =~= seq![';']);
    assert("'"@ =~= seq!['\'']);
    assert(""@ =~= Seq::<char>::empty());
    ley_quitar_caracter(celda, ' ');
    ley_quitar_caracter(valor, ';');
    let v1 = valor.filter(|x: char| x != ';');
    ley_quitar_caracter(v1, ' ');
    ley_quitar_caracter(v1.filter(|x: char| x != ' '), '\'');
}

} // verus!
