//! Which command a line of SQL asks for.
use vstd::prelude::*;
use crate::texto::{
    caracteres, iguales, mayusculas, mayusculas_exec, palabras, palabras_exec, recortar,
    recortar_exec, reemplazar, reemplazar_exec, texto,
};

verus! {

/// The command a line of SQL asks for, by its first word.
#[derive(Debug, Clone, Copy, PartialEq, Eq, Structural)]
pub enum Instruccion {
    Insert,
    Update,
    Delete,
    Select,
    Invalida,
}

/// The command text as it is run: each line break read as a space.
pub open spec fn consulta_de(terminal: Seq<char>) -> Seq<char> {
    reemplazar(terminal, "\n"@, " "@)
}

/// The command text as it is run (see `consulta_de`).
pub fn preparar_consulta(consulta_terminal: &str) -> (r: String)
    ensures
        r@ == consulta_de(consulta_terminal@),
{
    proof {
        reveal_strlit("\n");
    }
    texto(&reemplazar_exec(&caracteres(consulta_terminal), &caracteres("\n"), &caracteres(" ")))
}

/// The command that an uppercased first word names.
pub open spec fn instruccion_mayuscula(u: Seq<char>) -> Instruccion {
    if u == "INSERT"@ {
        Instruccion::Insert
    } else if u == "UPDATE"@ {
        Instruccion::Update
    } else if u == "DELETE"@ {
        Instruccion::Delete
    } else if u == "SELECT"@ {
        Instruccion::Select
    } else {
        Instruccion::Invalida
    }
}

/// The command named by the first word, in any case; `None` when the text
/// has no word.
pub open spec fn instruccion(consulta: Seq<char>) -> Option<Instruccion> {
    let ps = palabras(recortar(consulta));
    if ps.len() == 0 {
        None
    } else {
        Some(instruccion_mayuscula(mayusculas(ps[0])))
    }
}

/// The command that an uppercased first word names (see
/// `instruccion_mayuscula`).
pub fn instruccion_de(u: &str) -> (r: Instruccion)
    ensures
        r == instruccion_mayuscula(u@),
{
    let uc = caracteres(u);
    if iguales(&uc, &caracteres("INSERT")) {
        Instruccion::Insert
    } else if iguales(&uc, &caracteres("UPDATE")) {
        Instruccion::Update
    } else if iguales(&uc, &caracteres("DELETE")) {
        Instruccion::Delete
    } else if iguales(&uc, &caracteres("SELECT")) {
        Instruccion::Select
    } else {
        Instruccion::Invalida
    }
}

/// The command named by the first word (see `instruccion`).
pub fn clasificar_consulta(consulta: &str) -> (r: Option<Instruccion>)
    ensures
        r == instruccion(consulta@),
{
    let ps = palabras_exec(&recortar_exec(&caracteres(consulta)));
    if ps.len() == 0 {
        return None;
    }
    assert(ps@.map_values(|x: Vec<char>| x@)[0] == ps@[0]@);
    let u = mayusculas_exec(texto(&ps[0]).as_str());
    Some(instruccion_de(u.as_str()))
}

} // verus!
