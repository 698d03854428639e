//! Header detection and cell access for consolidated question sheets.
use vstd::prelude::*;

use crate::domain::{strs, QuestionScope, QuestionStatus};
use crate::text::{chars_contains, chars_eq, chars_of, contains, header_key, header_key_chars, lit, string_of, trim, trim_chars};

verus! {

/// Where each known column of a consolidated sheet stands, by header.
#[derive(Debug, Clone, Copy, PartialEq, Eq)]
pub struct ColumnMap {
    pub n_factor: Option<usize>,
    pub descripcion_factor: Option<usize>,
    pub n_caracteristica: Option<usize>,
    pub nombre_caracteristica: Option<usize>,
    pub n_aspecto: Option<usize>,
    pub descripcion_aspecto: Option<usize>,
    pub tipo_pregunta: Option<usize>,
    pub estado_pregunta: Option<usize>,
    pub convencion: Option<usize>,
    pub n_pregunta: Option<usize>,
    pub pregunta: Option<usize>,
    pub publico: Option<usize>,
    pub tipo_de_publico: Option<usize>,
}

impl ColumnMap {
    /// The column of the header `k`, by its canonical name.
    pub open spec fn index_of(self, k: Seq<char>) -> Option<usize> {
        if k == "n factor"@ {
            self.n_factor
        } else if k == "descripcion factor"@ {
            self.descripcion_factor
        } else if k == "n caracteristica"@ {
            self.n_caracteristica
        } else if k == "nombre caracteristica"@ {
            self.nombre_caracteristica
        } else if k == "n aspecto"@ {
            self.n_aspecto
        } else if k == "descripcion aspecto"@ {
            self.descripcion_aspecto
        } else if k == "tipo pregunta"@ {
            self.tipo_pregunta
        } else if k == "estado pregunta"@ {
            self.estado_pregunta
        } else if k == "convencion opcion de respuesta"@ {
            self.convencion
        } else if k == "n pregunta"@ {
            self.n_pregunta
        } else if k == "pregunta"@ {
            self.pregunta
        } else if k == "publico"@ {
            self.publico
        } else if k == "tipo de publico"@ {
            self.tipo_de_publico
        } else {
            None
        }
    }

    /// Whether these columns make a consolidated question header.
    pub open spec fn is_question_header(self) -> bool {
        &&& self.pregunta is Some
        &&& (self.publico is Some || self.tipo_de_publico is Some)
        &&& self.n_factor is Some
        &&& self.n_caracteristica is Some
        &&& self.descripcion_aspecto is Some
    }

    /// The canonical names of the columns present, in canonical order.
    pub open spec fn names(self) -> Seq<Seq<char>> {
        let a = add_if(Seq::empty(), self.n_factor is Some, "n factor"@);
        let b = add_if(a, self.descripcion_factor is Some, "descripcion factor"@);
        let c = add_if(b, self.n_caracteristica is Some, "n caracteristica"@);
        let d = add_if(c, self.nombre_caracteristica is Some, "nombre caracteristica"@);
        let e = add_if(d, self.n_aspecto is Some, "n aspecto"@);
        let f = add_if(e, self.descripcion_aspecto is Some, "descripcion aspecto"@);
        let g = add_if(f, self.tipo_pregunta is Some, "tipo pregunta"@);
        let h = add_if(g, self.estado_pregunta is Some, "estado pregunta"@);
        let i = add_if(h, self.convencion is Some, "convencion opcion de respuesta"@);
        let j = add_if(i, self.n_pregunta is Some, "n pregunta"@);
        let k = add_if(j, self.pregunta is Some, "pregunta"@);
        let l = add_if(k, self.publico is Some, "publico"@);
        add_if(l, self.tipo_de_publico is Some, "tipo de publico"@)
    }

    pub fn column_names(&self) -> (r: Vec<String>)
        ensures
            strs(r@) == self.names(),
    {
        let mut r: Vec<String> = Vec::new();
        assert(strs(r@) =~= Seq::empty());
        push_if(&mut r, self.n_factor.is_some(), "n factor");
        push_if(&mut r, self.descripcion_factor.is_some(), "descripcion factor");
        push_if(&mut r, self.n_caracteristica.is_some(), "n caracteristica");
        push_if(&mut r, self.nombre_caracteristica.is_some(), "nombre caracteristica");
        push_if(&mut r, self.n_aspecto.is_some(), "n aspecto");
        push_if(&mut r, self.descripcion_aspecto.is_some(), "descripcion aspecto");
        push_if(&mut r, self.tipo_pregunta.is_some(), "tipo pregunta");
        push_if(&mut r, self.estado_pregunta.is_some(), "estado pregunta");
        push_if(&mut r, self.convencion.is_some(), "convencion opcion de respuesta");
        push_if(&mut r, self.n_pregunta.is_some(), "n pregunta");
        push_if(&mut r, self.pregunta.is_some(), "pregunta");
        push_if(&mut r, self.publico.is_some(), "publico");
        push_if(&mut r, self.tipo_de_publico.is_some(), "tipo de publico");
        r
    }
}

pub open spec fn add_if(acc: Seq<Seq<char>>, present: bool, name: Seq<char>) -> Seq<Seq<char>> {
    if present {
        acc.push(name)
    } else {
        acc
    }
}

fn push_if(r: &mut Vec<String>, present: bool, name: &str)
    ensures
        strs(final(r)@) == add_if(strs(old(r)@), present, name@),
{
    if present {
        let ghost before = r@;
        r.push(lit(name));
        assert(strs(r@) =~= strs(before).push(name@));
    }
}

/// The last column whose header reads `h`, among the first `n` cells.
pub open spec fn last_header(keys: Seq<Seq<char>>, n: int, h: Seq<char>) -> Option<usize>
    decreases n,
{
    if n <= 0 {
        None
    } else if keys[n - 1] == h && h.len() > 0 {
        Some((n - 1) as usize)
    } else {
        last_header(keys, n - 1, h)
    }
}

pub open spec fn header_keys(row: Seq<Seq<char>>) -> Seq<Seq<char>> {
    row.map_values(|c: Seq<char>| header_key(c))
}

/// The column of header `h` in a row of headers.
pub open spec fn raw_column(row: Seq<Seq<char>>, h: Seq<char>) -> Option<usize> {
    last_header(header_keys(row), row.len() as int, h)
}

pub open spec fn first_some(a: Option<usize>, b: Option<usize>) -> Option<usize> {
    if a is Some {
        a
    } else {
        b
    }
}

/// The known columns of a header row; "factor" stands for "n factor" and
/// "convencion" for "convencion opcion de respuesta".
pub open spec fn columns_of(row: Seq<Seq<char>>) -> ColumnMap {
    ColumnMap {
        n_factor: first_some(raw_column(row, "n factor"@), raw_column(row, "factor"@)),
        descripcion_factor: raw_column(row, "descripcion factor"@),
        n_caracteristica: raw_column(row, "n caracteristica"@),
        nombre_caracteristica: raw_column(row, "nombre caracteristica"@),
        n_aspecto: raw_column(row, "n aspecto"@),
        descripcion_aspecto: raw_column(row, "descripcion aspecto"@),
        tipo_pregunta: raw_column(row, "tipo pregunta"@),
        estado_pregunta: raw_column(row, "estado pregunta"@),
        convencion: first_some(
            raw_column(row, "convencion opcion de respuesta"@),
            raw_column(row, "convencion"@),
        ),
        n_pregunta: raw_column(row, "n pregunta"@),
        pregunta: raw_column(row, "pregunta"@),
        publico: raw_column(row, "publico"@),
        tipo_de_publico: raw_column(row, "tipo de publico"@),
    }
}

fn last_index(keys: &Vec<Vec<char>>, h: &str) -> (r: Option<usize>)
    ensures
        r == last_header(crate::text::views(keys@), keys@.len() as int, h@),
{
    let target = chars_of(h);
    let mut n = keys.len();
    while n > 0
        invariant
            n <= keys@.len(),
            target@ == h@,
            last_header(crate::text::views(keys@), keys@.len() as int, h@) == last_header(
                crate::text::views(keys@),
                n as int,
                h@,
            ),
        decreases n,
    {
        assert(crate::text::views(keys@)[n - 1] == keys@[n - 1]@);
        let same = chars_eq(&keys[n - 1], &target);
        assert(same == (keys@[n - 1]@ == h@));
        let nonempty = target.len() > 0;
        assert(nonempty == (h@.len() > 0));
        let found = same && nonempty;
        if found {
            return Some(n - 1);
        }
        n = n - 1;
    }
    None
}

/// The known columns of a header row.
pub fn columns_of_row(row: &Vec<String>) -> (r: ColumnMap)
    ensures
        r == columns_of(strs(row@)),
{
    let mut keys: Vec<Vec<char>> = Vec::new();
    let n = row.len();
    let mut i: usize = 0;
    while i < n
        invariant
            i <= n == row@.len(),
            crate::text::views(keys@) =~= header_keys(strs(row@)).take(i as int),
        decreases n - i,
    {
        let ghost before = keys@;
        keys.push(header_key_chars(&chars_of(row[i].as_str())));
        assert(crate::text::views(keys@) =~= crate::text::views(before).push(header_key(row@[i as int]@)));
        i = i + 1;
    }
    assert(crate::text::views(keys@) =~= header_keys(strs(row@)));
    let nf = last_index(&keys, "n factor");
    let f = last_index(&keys, "factor");
    let cv = last_index(&keys, "convencion opcion de respuesta");
    let c = last_index(&keys, "convencion");
    ColumnMap {
        n_factor: if nf.is_some() { nf } else { f },
        descripcion_factor: last_index(&keys, "descripcion factor"),
        n_caracteristica: last_index(&keys, "n caracteristica"),
        nombre_caracteristica: last_index(&keys, "nombre caracteristica"),
        n_aspecto: last_index(&keys, "n aspecto"),
        descripcion_aspecto: last_index(&keys, "descripcion aspecto"),
        tipo_pregunta: last_index(&keys, "tipo pregunta"),
        estado_pregunta: last_index(&keys, "estado pregunta"),
        convencion: if cv.is_some() { cv } else { c },
        n_pregunta: last_index(&keys, "n pregunta"),
        pregunta: last_index(&keys, "pregunta"),
        publico: last_index(&keys, "publico"),
        tipo_de_publico: last_index(&keys, "tipo de publico"),
    }
}

/// The first row among the first twenty (from the `i`-th on) whose
/// headers make a consolidated question header.
pub open spec fn first_header(rows: Seq<Seq<Seq<char>>>, i: int) -> Option<usize>
    decreases 20 - i,
{
    if i < 0 || i >= 20 || i >= rows.len() {
        None
    } else if columns_of(rows[i]).is_question_header() {
        Some(i as usize)
    } else {
        first_header(rows, i + 1)
    }
}

pub open spec fn rows_view(rows: Seq<Vec<String>>) -> Seq<Seq<Seq<char>>> {
    rows.map_values(|r: Vec<String>| strs(r@))
}

/// The header row of a sheet (among its first twenty rows) and its columns.
pub fn find_header(rows: &Vec<Vec<String>>) -> (r: Option<(usize, ColumnMap)>)
    ensures
        r == (match first_header(rows_view(rows@), 0) {
            Some(i) => Some((i, columns_of(rows_view(rows@)[i as int]))),
            None => None,
        }),
{
    let mut i: usize = 0;
    while i < 20 && i < rows.len()
        invariant
            i <= 20,
            first_header(rows_view(rows@), 0) == first_header(rows_view(rows@), i as int),
        decreases 20 - i,
    {
        let columns = columns_of_row(&rows[i]);
        if columns.pregunta.is_some() && (columns.publico.is_some()
            || columns.tipo_de_publico.is_some()) && columns.n_factor.is_some()
            && columns.n_caracteristica.is_some() && columns.descripcion_aspecto.is_some() {
            return Some((i, columns));
        }
        i = i + 1;
    }
    None
}

/// The trimmed text of the cell at `index`, or nothing.
pub open spec fn cell_text(row: Seq<Seq<char>>, index: Option<usize>) -> Seq<char> {
    match index {
        Some(i) => if i < row.len() {
            trim(row[i as int])
        } else {
            Seq::empty()
        },
        None => Seq::empty(),
    }
}

pub fn cell(row: &Vec<String>, index: Option<usize>) -> (r: String)
    ensures
        r@ == cell_text(strs(row@), index),
{
    match index {
        Some(i) => if i < row.len() {
            string_of(&trim_chars(&chars_of(row[i].as_str())))
        } else {
            String::new()
        },
        None => String::new(),
    }
}

fn index_of_key(columns: &ColumnMap, key: &str) -> (r: Option<usize>)
    ensures
        r == columns.index_of(key@),
{
    if crate::text::str_eq(key, "n factor") {
        columns.n_factor
    } else if crate::text::str_eq(key, "descripcion factor") {
        columns.descripcion_factor
    } else if crate::text::str_eq(key, "n caracteristica") {
        columns.n_caracteristica
    } else if crate::text::str_eq(key, "nombre caracteristica") {
        columns.nombre_caracteristica
    } else if crate::text::str_eq(key, "n aspecto") {
        columns.n_aspecto
    } else if crate::text::str_eq(key, "descripcion aspecto") {
        columns.descripcion_aspecto
    } else if crate::text::str_eq(key, "tipo pregunta") {
        columns.tipo_pregunta
    } else if crate::text::str_eq(key, "estado pregunta") {
        columns.estado_pregunta
    } else if crate::text::str_eq(key, "convencion opcion de respuesta") {
        columns.convencion
    } else if crate::text::str_eq(key, "n pregunta") {
        columns.n_pregunta
    } else if crate::text::str_eq(key, "pregunta") {
        columns.pregunta
    } else if crate::text::str_eq(key, "publico") {
        columns.publico
    } else if crate::text::str_eq(key, "tipo de publico") {
        columns.tipo_de_publico
    } else {
        None
    }
}

/// The trimmed text of the cell under the header named `key`, or nothing.
pub fn get(row: &Vec<String>, columns: &ColumnMap, key: &str) -> (r: String)
    ensures
        r@ == cell_text(strs(row@), columns.index_of(key@)),
{
    cell(row, index_of_key(columns, key))
}

/// A header or label as compared: see `header_key`.
pub fn normalize_header(value: &str) -> (r: String)
    ensures
        r@ == header_key(value@),
{
    string_of(&header_key_chars(&chars_of(value)))
}

pub open spec fn scope_spec(v: Seq<char>) -> QuestionScope {
    let n = header_key(v);
    if contains(n, "programa"@) || n == "program"@ {
        QuestionScope::Program
    } else {
        QuestionScope::Institutional
    }
}

/// The scope written in a "Tipo pregunta" cell: program questions mention
/// "programa"; all others are institutional.
pub fn parse_scope(value: &str) -> (r: QuestionScope)
    ensures
        r == scope_spec(value@),
{
    let n = header_key_chars(&chars_of(value));
    if chars_contains(&n, &chars_of("programa")) || chars_eq(&n, &chars_of("program")) {
        QuestionScope::Program
    } else {
        QuestionScope::Institutional
    }
}

pub open spec fn status_spec(v: Seq<char>) -> QuestionStatus {
    let n = header_key(v);
    if n == "modificar"@ || n == "modify"@ {
        QuestionStatus::Modify
    } else if n == "agregar"@ || n == "add"@ {
        QuestionStatus::Add
    } else if n == "eliminar"@ || n == "delete"@ {
        QuestionStatus::Delete
    } else {
        QuestionStatus::Keep
    }
}

/// The status written in an "Estado pregunta" cell, in Spanish or English.
pub fn parse_status(value: &str) -> (r: QuestionStatus)
    ensures
        r == status_spec(value@),
{
    let n = header_key_chars(&chars_of(value));
    if chars_eq(&n, &chars_of("modificar")) || chars_eq(&n, &chars_of("modify")) {
        QuestionStatus::Modify
    } else if chars_eq(&n, &chars_of("agregar")) || chars_eq(&n, &chars_of("add")) {
        QuestionStatus::Add
    } else if chars_eq(&n, &chars_of("eliminar")) || chars_eq(&n, &chars_of("delete")) {
        QuestionStatus::Delete
    } else {
        QuestionStatus::Keep
    }
}

} // verus!
