//! Where the table files are.
use vstd::prelude::*;
use crate::texto::{caracteres, reemplazar, reemplazar_exec, texto};

verus! {

/// The path of a table's CSV file: the directory, `/`, the table name
/// without `;`, and `.csv`.
pub open spec fn ruta(nombre: Seq<char>, direccion: Seq<char>) -> Seq<char> {
    direccion + "/"@ + reemplazar(nombre, ";"@, ""@) + ".csv"@
}

/// The path of a table's CSV file (see `ruta`).
pub fn ruta_tabla(nombre_archivo: &str, direccion_archivo: &str) -> (r: String)
    ensures
        r@ == ruta(nombre_archivo@, direccion_archivo@),
{
    proof {
        reveal_strlit(";");
    }
    let mut v = caracteres(direccion_archivo);
    v.extend_from_slice(caracteres("/").as_slice());
    let nombre = reemplazar_exec(&caracteres(nombre_archivo), &caracteres(";"), &caracteres(""));
    v.extend_from_slice(nombre.as_slice());
    v.extend_from_slice(caracteres(".csv").as_slice());
    texto(&v)
}

} // verus!
