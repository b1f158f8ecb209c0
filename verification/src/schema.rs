//! The schema of the mirrored tables, and columns by name.

use vstd::prelude::*;

use crate::text::same_text;

verus! {

/// What is wrong with a row or a schema.
#[derive(Debug, Clone, Copy, PartialEq, Eq)]
pub enum Problem {
    /// The schema has no such table.
    NoTable,
    /// The table's rows are not products.
    NotProduct,
    /// The table has no such column.
    NoColumn { column: &'static str },
    /// The value has another type.
    WrongType,
    /// The value is null.
    Null,
    /// The value has another number of bytes.
    BadLength,
    /// The number is out of range.
    OutOfRange,
    /// The member is missing or not a number in range.
    Missing,
    /// The variant is not known.
    UnknownVariant,
    /// The text is not hexadecimal.
    BadHex,
    /// The sum has no variant.
    EmptySum,
    /// The bytes are no row of the table.
    Unreadable,
}

/// Why a row or a schema could not be read: the table or the member, its
/// position in the lists around it, and the problem.
#[derive(Debug, Clone, Copy, PartialEq, Eq)]
pub struct DecodeError {
    pub context: &'static str,
    pub outer: Option<usize>,
    pub inner: Option<usize>,
    pub problem: Problem,
}

/// An error outside any list.
pub open spec fn plain_error(context: &'static str, problem: Problem) -> DecodeError {
    DecodeError { context, outer: None, inner: None, problem }
}

/// An error in an entry of a list.
pub open spec fn entry_error(context: &'static str, i: int, problem: Problem) -> DecodeError {
    DecodeError { context, outer: Some(i as usize), inner: None, problem }
}

/// The error of a failure.
pub open spec fn failed<T>(r: Result<T, DecodeError>) -> Option<DecodeError> {
    match r {
        Ok(_) => None,
        Err(e) => Some(e),
    }
}

/// The first of two errors.
pub open spec fn either(a: Option<DecodeError>, b: Option<DecodeError>) -> Option<DecodeError> {
    if a is Some {
        a
    } else {
        b
    }
}

/// Makes an error outside any list.
pub fn error(context: &'static str, problem: Problem) -> (r: DecodeError)
    ensures
        r == plain_error(context, problem),
{
    DecodeError { context, outer: None, inner: None, problem }
}

/// Makes an error in an entry of a list.
pub fn error_at(context: &'static str, i: usize, problem: Problem) -> (r: DecodeError)
    ensures
        r == entry_error(context, i as int, problem),
{
    DecodeError { context, outer: Some(i), inner: None, problem }
}

/// The type of a column, as far as its width in a row goes. `Other` stands for
/// every type without a fixed width.
#[derive(Debug, Clone, Copy, PartialEq, Eq, Structural)]
pub enum MirroredType {
    Bool,
    U8,
    I8,
    U16,
    I16,
    U32,
    I32,
    F32,
    U64,
    I64,
    F64,
    U128,
    I128,
    U256,
    I256,
    Other,
}

/// A column of a table.
#[derive(Debug)]
pub struct MirroredField {
    pub name: Option<String>,
    pub ty: MirroredType,
}

/// A table with its columns; `None` where its rows are not products.
#[derive(Debug)]
pub struct MirroredTable {
    pub name: String,
    pub fields: Option<Vec<MirroredField>>,
}

/// The tables of a mirrored database.
#[derive(Debug)]
pub struct MirroredSchema {
    pub tables: Vec<MirroredTable>,
}

/// Position of the first table with a name, from `i` on.
pub open spec fn table_from(tables: Seq<MirroredTable>, name: Seq<char>, i: int) -> Option<int>
    decreases tables.len() - i,
{
    if i < 0 || i >= tables.len() {
        None
    } else if tables[i].name@ == name {
        Some(i)
    } else {
        table_from(tables, name, i + 1)
    }
}

/// Whether a column has a name.
pub open spec fn is_named(f: MirroredField, name: Seq<char>) -> bool {
    match f.name {
        Some(n) => n@ == name,
        None => false,
    }
}

/// Position of the first column with a name, from `i` on.
pub open spec fn field_from(fields: Seq<MirroredField>, name: Seq<char>, i: int) -> Option<int>
    decreases fields.len() - i,
{
    if i < 0 || i >= fields.len() {
        None
    } else if is_named(fields[i], name) {
        Some(i)
    } else {
        field_from(fields, name, i + 1)
    }
}

/// The columns of a table, or why there are none.
pub open spec fn columns(schema: MirroredSchema, table: &'static str) -> Result<Seq<MirroredField>, DecodeError> {
    match table_from(schema.tables@, table@, 0) {
        None => Err(plain_error(table, Problem::NoTable)),
        Some(i) => match schema.tables@[i].fields {
            None => Err(plain_error(table, Problem::NotProduct)),
            Some(f) => Ok(f@),
        },
    }
}

/// The position of a column, or why there is none.
pub open spec fn column(schema: MirroredSchema, table: &'static str, name: &'static str) -> Result<int, DecodeError> {
    match columns(schema, table) {
        Err(e) => Err(e),
        Ok(f) => match field_from(f, name@, 0) {
            Some(i) => Ok(i),
            None => Err(plain_error(table, Problem::NoColumn { column: name })),
        },
    }
}

/// Whether a column stands at a position.
pub open spec fn stands_at(schema: MirroredSchema, table: &'static str, name: &'static str, i: usize) -> bool {
    column(schema, table, name) == Ok::<int, DecodeError>(i as int)
}

/// The first of the named columns that the table lacks, as an error.
pub open spec fn lacking(schema: MirroredSchema, table: &'static str, names: Seq<&'static str>) -> Option<DecodeError>
    decreases names.len(),
{
    if names.len() == 0 {
        failed(columns(schema, table))
    } else {
        either(
            lacking(schema, table, names.drop_last()),
            failed(column(schema, table, names.last())),
        )
    }
}

/// The columns of a table.
pub fn fields_of<'a>(schema: &'a MirroredSchema, table: &'static str) -> (r: Result<&'a [MirroredField], DecodeError>)
    ensures
        match r {
            Ok(f) => columns(*schema, table) == Ok::<Seq<MirroredField>, DecodeError>(f@),
            Err(e) => columns(*schema, table) == Err::<Seq<MirroredField>, DecodeError>(e),
        },
{
    let mut i: usize = 0;
    while i < schema.tables.len()
        invariant
            i <= schema.tables@.len(),
            table_from(schema.tables@, table@, 0) == table_from(schema.tables@, table@, i as int),
        decreases schema.tables.len() - i,
    {
        if same_text(schema.tables[i].name.as_str(), table) {
            return match &schema.tables[i].fields {
                Some(f) => Ok(f.as_slice()),
                None => Err(error(table, Problem::NotProduct)),
            };
        }
        i += 1;
    }
    Err(error(table, Problem::NoTable))
}

/// Whether a column has a name.
fn has_name(field: &MirroredField, name: &str) -> (r: bool)
    ensures
        r <==> is_named(*field, name@),
{
    match &field.name {
        Some(n) => same_text(n.as_str(), name),
        None => false,
    }
}

/// Position of the first column with a name.
pub fn position_of(fields: &[MirroredField], name: &str) -> (r: Option<usize>)
    ensures
        match r {
            Some(i) => field_from(fields@, name@, 0) == Some(i as int) && i < fields@.len(),
            None => field_from(fields@, name@, 0) is None,
        },
{
    let mut i: usize = 0;
    while i < fields.len()
        invariant
            i <= fields@.len(),
            field_from(fields@, name@, 0) == field_from(fields@, name@, i as int),
        decreases fields.len() - i,
    {
        if has_name(&fields[i], name) {
            return Some(i);
        }
        i += 1;
    }
    None
}

/// Whether the schema has a table.
pub open spec fn has_table(schema: MirroredSchema, table: &'static str) -> bool {
    table_from(schema.tables@, table@, 0) is Some
}

/// Whether the schema has a table.
fn is_table(schema: &MirroredSchema, table: &'static str) -> (r: bool)
    ensures
        r <==> has_table(*schema, table),
{
    let mut i: usize = 0;
    while i < schema.tables.len()
        invariant
            i <= schema.tables@.len(),
            table_from(schema.tables@, table@, 0) == table_from(schema.tables@, table@, i as int),
        decreases schema.tables.len() - i,
    {
        if same_text(schema.tables[i].name.as_str(), table) {
            return true;
        }
        i += 1;
    }
    false
}

/// Positions of named columns of a table, where the table is there.
pub fn find_fields_if_any(schema: &MirroredSchema, table: &'static str, names: &[&'static str]) -> (r: Result<
    Option<Vec<usize>>,
    DecodeError,
>)
    ensures
        match r {
            Ok(None) => !has_table(*schema, table),
            Ok(Some(v)) => {
                &&& has_table(*schema, table)
                &&& v@.len() == names@.len()
                &&& lacking(*schema, table, names@) is None
                &&& forall|i: int|
                    0 <= i < names@.len() ==> {
                        &&& stands_at(*schema, table, names@[i], #[trigger] v@[i])
                        &&& v@[i] < columns(*schema, table)->Ok_0.len()
                    }
            },
            Err(e) => has_table(*schema, table) && lacking(*schema, table, names@) == Some(e),
        },
{
    if !is_table(schema, table) {
        return Ok(None);
    }
    let at = find_fields(schema, table, names)?;
    Ok(Some(at))
}

/// Positions of named columns of a table.
pub fn find_fields(schema: &MirroredSchema, table: &'static str, names: &[&'static str]) -> (r: Result<
    Vec<usize>,
    DecodeError,
>)
    ensures
        match r {
            Ok(v) => {
                &&& v@.len() == names@.len()
                &&& lacking(*schema, table, names@) is None
                &&& columns(*schema, table) is Ok
                &&& forall|i: int|
                    0 <= i < names@.len() ==> {
                        &&& stands_at(*schema, table, names@[i], #[trigger] v@[i])
                        &&& v@[i] < columns(*schema, table)->Ok_0.len()
                    }
            },
            Err(e) => lacking(*schema, table, names@) == Some(e),
        },
{
    let f = match fields_of(schema, table) {
        Ok(f) => f,
        Err(e) => {
            proof {
                lemma_no_columns(*schema, table, names@);
            }
            return Err(e);
        },
    };
    let mut out: Vec<usize> = Vec::new();
    let mut i: usize = 0;
    assert(names@.take(0) =~= Seq::<&'static str>::empty());
    while i < names.len()
        invariant
            i <= names@.len(),
            out@.len() == i,
            columns(*schema, table) == Ok::<Seq<MirroredField>, DecodeError>(f@),
            lacking(*schema, table, names@.take(i as int)) is None,
            forall|j: int|
                0 <= j < i ==> {
                    &&& stands_at(*schema, table, names@[j], #[trigger] out@[j])
                    &&& out@[j] < f@.len()
                },
        decreases names.len() - i,
    {
        assert(names@.take(i + 1).drop_last() =~= names@.take(i as int));
        assert(names@.take(i + 1).last() == names@[i as int]);
        match position_of(f, names[i]) {
            Some(p) => {
                out.push(p);
            },
            None => {
                let e = error(table, Problem::NoColumn { column: names[i] });
                proof {
                    assert(lacking(*schema, table, names@.take(i + 1)) == Some(e));
                    lemma_lacking_stays(*schema, table, names@, i + 1);
                }
                return Err(e);
            },
        }
        i += 1;
    }
    assert(names@.take(i as int) =~= names@);
    Ok(out)
}

/// Without columns every list of names lacks the table.
proof fn lemma_no_columns(schema: MirroredSchema, table: &'static str, names: Seq<&'static str>)
    requires
        columns(schema, table) is Err,
    ensures
        lacking(schema, table, names) == failed(columns(schema, table)),
    decreases names.len(),
{
    if names.len() > 0 {
        lemma_no_columns(schema, table, names.drop_last());
    }
}

/// The first column that is missing stays the first.
proof fn lemma_lacking_stays(schema: MirroredSchema, table: &'static str, names: Seq<&'static str>, n: int)
    requires
        0 <= n <= names.len(),
        lacking(schema, table, names.take(n)) is Some,
    ensures
        lacking(schema, table, names) == lacking(schema, table, names.take(n)),
    decreases names.len(),
{
    if n == names.len() {
        assert(names.take(n) =~= names);
    } else {
        assert(names.drop_last().take(n) =~= names.take(n));
        lemma_lacking_stays(schema, table, names.drop_last(), n);
    }
}

/// Bytes of a column with a fixed width.
pub open spec fn width(ty: MirroredType) -> Option<nat> {
    match ty {
        MirroredType::Bool | MirroredType::U8 | MirroredType::I8 => Some(1),
        MirroredType::U16 | MirroredType::I16 => Some(2),
        MirroredType::U32 | MirroredType::I32 | MirroredType::F32 => Some(4),
        MirroredType::U64 | MirroredType::I64 | MirroredType::F64 => Some(8),
        MirroredType::U128 | MirroredType::I128 => Some(16),
        MirroredType::U256 | MirroredType::I256 => Some(32),
        MirroredType::Other => None,
    }
}

/// Bytes of a column with a fixed width.
pub fn fixed_width(ty: MirroredType) -> (r: Option<usize>)
    ensures
        match r {
            Some(n) => width(ty) == Some(n as nat) && n <= 32,
            None => width(ty) is None,
        },
{
    match ty {
        MirroredType::Bool | MirroredType::U8 | MirroredType::I8 => Some(1),
        MirroredType::U16 | MirroredType::I16 => Some(2),
        MirroredType::U32 | MirroredType::I32 | MirroredType::F32 => Some(4),
        MirroredType::U64 | MirroredType::I64 | MirroredType::F64 => Some(8),
        MirroredType::U128 | MirroredType::I128 => Some(16),
        MirroredType::U256 | MirroredType::I256 => Some(32),
        MirroredType::Other => None,
    }
}

/// Bytes of the first `n` columns, where all of them have a fixed width.
pub open spec fn span(fields: Seq<MirroredField>, n: nat) -> Option<nat>
    decreases n,
{
    if n == 0 {
        Some(0)
    } else if n > fields.len() {
        None
    } else {
        match (span(fields, (n - 1) as nat), width(fields[n - 1].ty)) {
            (Some(a), Some(b)) => Some(a + b),
            _ => None,
        }
    }
}

/// Position of a named column in the bytes of a row: it and the columns before
/// it have fixed widths.
pub open spec fn offset_in(fields: Seq<MirroredField>, name: Seq<char>) -> Option<nat> {
    match field_from(fields, name, 0) {
        Some(i) => if span(fields, (i + 1) as nat) is Some {
            span(fields, i as nat)
        } else {
            None
        },
        None => None,
    }
}

/// Position of a named column in the bytes of a row.
pub fn fixed_field_offset(fields: &[MirroredField], name: &str) -> (r: Option<usize>)
    requires
        32 * fields@.len() <= usize::MAX,
    ensures
        match r {
            Some(o) => offset_in(fields@, name@) == Some(o as nat) && o <= 32 * fields@.len(),
            None => offset_in(fields@, name@) is None,
        },
{
    let mut offset: usize = 0;
    let mut i: usize = 0;
    while i < fields.len()
        invariant
            i <= fields@.len(),
            32 * fields@.len() <= usize::MAX,
            offset <= 32 * i,
            span(fields@, i as nat) == Some(offset as nat),
            field_from(fields@, name@, 0) == field_from(fields@, name@, i as int),
        decreases fields.len() - i,
    {
        match fixed_width(fields[i].ty) {
            None => {
                proof {
                    assert(span(fields@, (i + 1) as nat) is None);
                    lemma_span_stops(fields@, name@, i as int);
                }
                return None;
            },
            Some(w) => {
                if has_name(&fields[i], name) {
                    return Some(offset);
                }
                offset += w;
            },
        }
        i += 1;
    }
    None
}

/// Past a column without a fixed width nothing has a position.
proof fn lemma_span_stops(fields: Seq<MirroredField>, name: Seq<char>, i: int)
    requires
        0 <= i < fields.len(),
        span(fields, (i + 1) as nat) is None,
        field_from(fields, name, 0) == field_from(fields, name, i),
    ensures
        offset_in(fields, name) is None,
{
    lemma_field_at_least(fields, name, i);
    if let Some(k) = field_from(fields, name, i) {
        lemma_span_none(fields, (i + 1) as nat, (k + 1) as nat);
    }
}

/// A search from a position finds nothing before it.
proof fn lemma_field_at_least(fields: Seq<MirroredField>, name: Seq<char>, i: int)
    requires
        0 <= i,
    ensures
        field_from(fields, name, i) matches Some(k) ==> i <= k < fields.len(),
    decreases fields.len() - i,
{
    if i < fields.len() {
        lemma_field_at_least(fields, name, i + 1);
    }
}

/// A longer span has no width where a shorter one has none.
proof fn lemma_span_none(fields: Seq<MirroredField>, a: nat, b: nat)
    requires
        a <= b,
        span(fields, a) is None,
    ensures
        span(fields, b) is None,
    decreases b,
{
    if a < b {
        lemma_span_none(fields, a, (b - 1) as nat);
    }
}

/// The columns of a row follow each other: the first one is at the start, and
/// each next one behind the bytes of the one before.
pub proof fn law_columns_follow_each_other(fields: Seq<MirroredField>, a: Seq<char>, b: Seq<char>, i: int)
    requires
        0 <= i,
        i + 1 < fields.len(),
        field_from(fields, a, 0) == Some(i),
        field_from(fields, b, 0) == Some(i + 1),
    ensures
        offset_in(fields, b) matches Some(p) ==> (offset_in(fields, a) matches Some(o) && (width(
            fields[i].ty,
        ) matches Some(w) && p == o + w)),
        i == 0 && width(fields[0].ty) is Some ==> offset_in(fields, a) == Some(0nat),
        width(fields[i].ty) is None ==> offset_in(fields, a) is None && offset_in(fields, b) is None,
{
    reveal_with_fuel(span, 3);
}

/// A column takes as many bytes as a number of its type has.
pub proof fn law_columns_have_the_width_of_their_type()
    ensures
        width(MirroredType::Bool) == Some(1nat),
        width(MirroredType::U8) == Some(1nat),
        width(MirroredType::I8) == Some(1nat),
        width(MirroredType::U16) == Some(2nat),
        width(MirroredType::I16) == Some(2nat),
        width(MirroredType::U32) == Some(4nat),
        width(MirroredType::I32) == Some(4nat),
        width(MirroredType::F32) == Some(4nat),
        width(MirroredType::U64) == Some(8nat),
        width(MirroredType::I64) == Some(8nat),
        width(MirroredType::F64) == Some(8nat),
        width(MirroredType::U128) == Some(16nat),
        width(MirroredType::I128) == Some(16nat),
        width(MirroredType::U256) == Some(32nat),
        width(MirroredType::I256) == Some(32nat),
        width(MirroredType::Other) is None,
{
}

} // verus!
