//! The data model: field types, values, schemas, rows, data blocks, and the
//! parse errors, together with their mathematical views.

use vstd::prelude::*;

verus! {

/// The five declared field types, one per single-character type code.
#[derive(Clone, Copy, Debug, PartialEq, Eq, Structural)]
pub enum AxonType {
    String,
    Integer,
    Float,
    Boolean,
    Timestamp,
}

/// The type a single-character code declares, or the error an unrecognized
/// code raises.
pub open spec fn from_code_spec(code: char) -> Result<AxonType, ParseError> {
    if code == 'S' {
        Ok(AxonType::String)
    } else if code == 'I' {
        Ok(AxonType::Integer)
    } else if code == 'F' {
        Ok(AxonType::Float)
    } else if code == 'B' {
        Ok(AxonType::Boolean)
    } else if code == 'T' {
        Ok(AxonType::Timestamp)
    } else {
        Err(ParseError::UnknownTypeCode(code))
    }
}

impl AxonType {
    /// The field type declared by a single-character code: `S`, `I`, `F`,
    /// `B` or `T`; every other code is an error.
    pub fn from_code(code: char) -> (r: Result<AxonType, ParseError>)
        ensures
            r == from_code_spec(code),
    {
        match code {
            'S' => Ok(AxonType::String),
            'I' => Ok(AxonType::Integer),
            'F' => Ok(AxonType::Float),
            'B' => Ok(AxonType::Boolean),
            'T' => Ok(AxonType::Timestamp),
            _ => Err(ParseError::UnknownTypeCode(code)),
        }
    }
}

/// One parsed value, as it stands in a row.  A floating-point field keeps the
/// accepted numeric literal verbatim; a timestamp is likewise kept verbatim.
#[derive(Clone, Debug, PartialEq)]
pub enum AxonValue {
    Null,
    String(String),
    Integer(i64),
    Float(String),
    Boolean(bool),
    Timestamp(String),
}

/// The view of a value: its text fields as character sequences.
pub enum ValueView {
    Null,
    String(Seq<char>),
    Integer(i64),
    Float(Seq<char>),
    Boolean(bool),
    Timestamp(Seq<char>),
}

impl View for AxonValue {
    type V = ValueView;

    open spec fn view(&self) -> ValueView {
        match self {
            AxonValue::Null => ValueView::Null,
            AxonValue::String(s) => ValueView::String(s@),
            AxonValue::Integer(n) => ValueView::Integer(*n),
            AxonValue::Float(s) => ValueView::Float(s@),
            AxonValue::Boolean(b) => ValueView::Boolean(*b),
            AxonValue::Timestamp(s) => ValueView::Timestamp(s@),
        }
    }
}

impl DeepView for AxonValue {
    type V = ValueView;

    open spec fn deep_view(&self) -> ValueView {
        self.view()
    }
}

/// One declared field of a schema.
#[derive(Clone, Debug, PartialEq)]
pub struct FieldDefinition {
    pub name: String,
    pub field_type: AxonType,
    pub is_nullable: bool,
}

/// The view of a field definition.
pub struct FieldView {
    pub name: Seq<char>,
    pub field_type: AxonType,
    pub is_nullable: bool,
}

impl View for FieldDefinition {
    type V = FieldView;

    open spec fn view(&self) -> FieldView {
        FieldView { name: self.name@, field_type: self.field_type, is_nullable: self.is_nullable }
    }
}

impl DeepView for FieldDefinition {
    type V = FieldView;

    open spec fn deep_view(&self) -> FieldView {
        self.view()
    }
}

/// A named, ordered list of field definitions.
#[derive(Clone, Debug, PartialEq)]
pub struct Schema {
    pub name: String,
    pub fields: Vec<FieldDefinition>,
}

/// The view of a schema.
pub struct SchemaView {
    pub name: Seq<char>,
    pub fields: Seq<FieldView>,
}

impl View for Schema {
    type V = SchemaView;

    open spec fn view(&self) -> SchemaView {
        SchemaView { name: self.name@, fields: self.fields.deep_view() }
    }
}

impl DeepView for Schema {
    type V = SchemaView;

    open spec fn deep_view(&self) -> SchemaView {
        self.view()
    }
}

/// A row's view: its field-name/value entries.  Lookup is by name; rows the
/// parser builds hold at most one entry per name, since insertion replaces
/// any earlier binding of the same name.
pub type RowView = Seq<(Seq<char>, ValueView)>;

/// The value a row associates with a name: that of the last entry carrying
/// the name, if any.
pub open spec fn row_lookup(entries: RowView, name: Seq<char>) -> Option<ValueView>
    decreases entries.len(),
{
    if entries.len() == 0 {
        None
    } else if entries.last().0 == name {
        Some(entries.last().1)
    } else {
        row_lookup(entries.drop_last(), name)
    }
}

/// The entries with the first one carrying the name removed, if any.
pub open spec fn remove_key(entries: RowView, name: Seq<char>) -> RowView
    decreases entries.len(),
{
    if entries.len() == 0 {
        entries
    } else if entries[0].0 == name {
        entries.drop_first()
    } else {
        seq![entries[0]] + remove_key(entries.drop_first(), name)
    }
}

/// The entries after a mapping insert: any earlier entry under the name is
/// removed, and the new binding goes at the end.
pub open spec fn row_upsert(entries: RowView, name: Seq<char>, v: ValueView) -> RowView {
    remove_key(entries, name).push((name, v))
}

/// No two entries carry the same name.
pub open spec fn unique_keys(entries: RowView) -> bool {
    forall|a: int, b: int| 0 <= a < b < entries.len() ==> entries[a].0 != entries[b].0
}

proof fn lemma_remove_key_at(entries: RowView, name: Seq<char>, idx: int)
    requires
        0 <= idx < entries.len(),
        entries[idx].0 == name,
        forall|t: int| 0 <= t < idx ==> entries[t].0 != name,
    ensures
        remove_key(entries, name) == entries.remove(idx),
    decreases idx,
{
    if idx == 0 {
        assert(entries.drop_first() =~= entries.remove(0));
    } else {
        let d = entries.drop_first();
        assert(entries[0].0 != name);
        assert(d[idx - 1] == entries[idx]);
        assert forall|t: int| 0 <= t < idx - 1 implies d[t].0 != name by {
            assert(d[t] == entries[t + 1]);
        }
        lemma_remove_key_at(d, name, idx - 1);
        assert(seq![entries[0]] + d.remove(idx - 1) =~= entries.remove(idx));
    }
}

proof fn lemma_remove_key_absent(entries: RowView, name: Seq<char>)
    requires
        forall|t: int| 0 <= t < entries.len() ==> entries[t].0 != name,
    ensures
        remove_key(entries, name) == entries,
    decreases entries.len(),
{
    if entries.len() > 0 {
        let d = entries.drop_first();
        assert forall|t: int| 0 <= t < d.len() implies d[t].0 != name by {
            assert(d[t] == entries[t + 1]);
        }
        lemma_remove_key_absent(d, name);
        assert(seq![entries[0]] + d =~= entries);
    }
}

/// A mapping insert keeps the keys unique.
pub proof fn lemma_upsert_unique(entries: RowView, name: Seq<char>, v: ValueView)
    requires
        unique_keys(entries),
    ensures
        unique_keys(row_upsert(entries, name, v)),
{
    if exists|t: int| 0 <= t < entries.len() && entries[t].0 == name {
        let idx = choose|t: int| 0 <= t < entries.len() && entries[t].0 == name;
        lemma_remove_key_at(entries, name, idx);
        let rk = entries.remove(idx);
        assert forall|t: int| 0 <= t < rk.len() implies rk[t] == (if t < idx {
            entries[t]
        } else {
            entries[t + 1]
        }) by {}
        assert forall|a: int, b: int|
            0 <= a < b < row_upsert(entries, name, v).len() implies row_upsert(entries, name, v)[a].0
            != row_upsert(entries, name, v)[b].0 by {
            if b < rk.len() {
            } else {
                assert(row_upsert(entries, name, v)[b].0 == name);
            }
        }
    } else {
        lemma_remove_key_absent(entries, name);
    }
}

/// Inserts a binding as a mapping would: any earlier entry under the name
/// is removed, and the new one goes at the end.
#[verifier::loop_isolation(false)]
pub fn upsert_entry(entries: &mut Vec<(String, AxonValue)>, name: String, value: AxonValue)
    ensures
        final(entries).deep_view() == row_upsert(old(entries).deep_view(), name@, value@),
{
    let n = entries.len();
    let mut j: usize = 0;
    while j < n
        invariant
            j <= n,
            n == entries@.len(),
            entries@ == old(entries)@,
            forall|t: int| 0 <= t < j ==> entries.deep_view()[t].0 != name@,
        decreases n - j,
    {
        if entries[j].0 == name {
            proof {
                assert(entries.deep_view()[j as int].0 == entries@[j as int].0@);
            }
            let ghost prev = entries.deep_view();
            entries.remove(j);
            proof {
                assert(entries.deep_view() =~= prev.remove(j as int));
            }
            let ghost shorter = entries.deep_view();
            entries.push((name, value));
            proof {
                assert(entries.deep_view() =~= shorter.push((name@, value@)));
                lemma_remove_key_at(prev, name@, j as int);
            }
            return;
        }
        j += 1;
    }
    let ghost prev = entries.deep_view();
    entries.push((name, value));
    proof {
        assert(entries.deep_view() =~= prev.push((name@, value@)));
        lemma_remove_key_absent(prev, name@);
    }
}

/// One parsed row: a mapping from field name to value, built positionally
/// from the row's tokens.
#[derive(Clone, Debug, PartialEq)]
pub struct Row {
    pub entries: Vec<(String, AxonValue)>,
}

impl View for Row {
    type V = RowView;

    open spec fn view(&self) -> RowView {
        self.entries.deep_view()
    }
}

impl DeepView for Row {
    type V = RowView;

    open spec fn deep_view(&self) -> RowView {
        self.view()
    }
}

impl Row {
    /// The value stored under a field name, if the row has one.
    pub fn get(&self, name: &str) -> (r: Option<&AxonValue>)
        ensures
            match r {
                Some(v) => row_lookup(self@, name@) == Some(v@),
                None => row_lookup(self@, name@) == None::<ValueView>,
            },
    {
        let n = self.entries.len();
        let mut i: usize = n;
        proof {
            assert(self@.subrange(0, n as int) =~= self@);
        }
        while i > 0
            invariant
                i <= n,
                n == self.entries.len(),
                row_lookup(self@, name@) == row_lookup(self@.subrange(0, i as int), name@),
            decreases i,
        {
            proof {
                assert(self@.subrange(0, i as int).last() == self@[i - 1]);
                assert(self@.subrange(0, i as int).drop_last() =~= self@.subrange(0, i as int - 1));
            }
            if string_eq_str(&self.entries[i - 1].0, name) {
                return Some(&self.entries[i - 1].1);
            }
            i -= 1;
        }
        proof {
            assert(self@.subrange(0, 0) =~= Seq::<(Seq<char>, ValueView)>::empty());
        }
        None
    }
}

/// The two strings hold the same characters.
fn string_eq_str(a: &String, b: &str) -> (r: bool)
    ensures
        r == (a@ == b@),
{
    let bs = crate::text::chars_of(b);
    let av = crate::text::chars_of(a.as_str());
    if av.len() != bs.len() {
        return false;
    }
    let mut i: usize = 0;
    while i < av.len()
        invariant
            i <= av.len(),
            av.len() == bs.len(),
            av@ == a@,
            bs@ == b@,
            forall|j: int| 0 <= j < i ==> a@[j] == b@[j],
        decreases av.len() - i,
    {
        if av[i] != bs[i] {
            return false;
        }
        i += 1;
    }
    proof {
        assert(a@ =~= b@);
    }
    true
}

/// A named, counted block of rows.  The declared count is stored as the
/// header gave it and never checked against the number of rows.
#[derive(Clone, Debug, PartialEq)]
pub struct DataBlock {
    pub schema_name: String,
    pub count: usize,
    pub rows: Vec<Row>,
}

/// The view of a data block.
pub struct BlockView {
    pub schema_name: Seq<char>,
    pub count: int,
    pub rows: Seq<RowView>,
}

impl View for DataBlock {
    type V = BlockView;

    open spec fn view(&self) -> BlockView {
        BlockView {
            schema_name: self.schema_name@,
            count: self.count as int,
            rows: self.rows.deep_view(),
        }
    }
}

impl DeepView for DataBlock {
    type V = BlockView;

    open spec fn deep_view(&self) -> BlockView {
        self.view()
    }
}

/// The outcome of a successful parse: every schema and every data block of
/// the document, in encounter order.
#[derive(Clone, Debug, PartialEq)]
pub struct ParseResult {
    pub schemas: Vec<Schema>,
    pub data_blocks: Vec<DataBlock>,
}

/// The view of a parse result.
pub struct DocView {
    pub schemas: Seq<SchemaView>,
    pub data_blocks: Seq<BlockView>,
}

impl View for ParseResult {
    type V = DocView;

    open spec fn view(&self) -> DocView {
        DocView { schemas: self.schemas.deep_view(), data_blocks: self.data_blocks.deep_view() }
    }
}

/// A fatal parse error; any of these aborts the whole parse.
#[derive(Clone, Debug, PartialEq)]
pub enum ParseError {
    /// An unrecognized single-character type code in a schema field.
    UnknownTypeCode(char),
    /// A schema field whose type annotation is empty once the optional
    /// trailing `?` is stripped; carries the field's name.
    EmptyTypeSpec(String),
    /// A `@data` header line that does not match `@data <name>[<digits>]`,
    /// or whose digits exceed the machine's size limit; carries the line.
    InvalidDataHeader(String),
    /// A data block naming a schema that no earlier block declared; carries
    /// the name.
    SchemaNotFound(String),
    /// A row token that does not parse as the declared 64-bit integer type;
    /// carries the token, then the field's name.
    InvalidInteger(String, String),
    /// A row token that does not parse as the declared float type; carries
    /// the token, then the field's name.
    InvalidFloat(String, String),
}

/// The view of a parse error.
pub enum ErrorView {
    UnknownTypeCode(char),
    EmptyTypeSpec(Seq<char>),
    InvalidDataHeader(Seq<char>),
    SchemaNotFound(Seq<char>),
    InvalidInteger(Seq<char>, Seq<char>),
    InvalidFloat(Seq<char>, Seq<char>),
}

impl View for ParseError {
    type V = ErrorView;

    open spec fn view(&self) -> ErrorView {
        match self {
            ParseError::UnknownTypeCode(c) => ErrorView::UnknownTypeCode(*c),
            ParseError::EmptyTypeSpec(f) => ErrorView::EmptyTypeSpec(f@),
            ParseError::InvalidDataHeader(l) => ErrorView::InvalidDataHeader(l@),
            ParseError::SchemaNotFound(n) => ErrorView::SchemaNotFound(n@),
            ParseError::InvalidInteger(t, f) => ErrorView::InvalidInteger(t@, f@),
            ParseError::InvalidFloat(t, f) => ErrorView::InvalidFloat(t@, f@),
        }
    }
}

} // verus!
