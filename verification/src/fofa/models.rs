//! Request and response models of the FOFA search API.
use vstd::prelude::*;

use crate::fofa::error::{FofaError, FofaErrorView};
use crate::text::{chars_eq, chars_of, decimal, push_char, push_decimal, push_str};

verus! {

/// A requested result column. `output_name` is used in exported files, while
/// `api_name` is sent to FOFA.
#[derive(Debug, PartialEq, Eq, Hash)]
pub struct ReturnField {
    pub output_name: String,
    pub api_name: String,
}

/// The characters of a [`ReturnField`]'s two names.
pub struct ReturnFieldView {
    pub output_name: Seq<char>,
    pub api_name: Seq<char>,
}

impl View for ReturnField {
    type V = ReturnFieldView;

    open spec fn view(&self) -> ReturnFieldView {
        ReturnFieldView { output_name: self.output_name@, api_name: self.api_name@ }
    }
}

/// The views of a list of return fields.
pub open spec fn field_views(fields: Seq<ReturnField>) -> Seq<ReturnFieldView> {
    fields.map_values(|f: ReturnField| f@)
}

/// The documented `location.*` aliases of FOFA's location fields.
pub open spec fn location_alias(name: Seq<char>) -> Seq<char> {
    if name == "location.country"@ {
        "country"@
    } else if name == "location.country_name"@ {
        "country_name"@
    } else if name == "location.region"@ {
        "region"@
    } else if name == "location.city"@ {
        "city"@
    } else if name == "location.longitude"@ {
        "longitude"@
    } else if name == "location.latitude"@ {
        "latitude"@
    } else {
        name
    }
}

/// Maps a `location.*` display name to its API name; other names are returned unchanged.
pub fn map_location_field(name: &str) -> (r: &str)
    ensures
        r@ == location_alias(name@),
{
    let v = chars_of(name);
    if chars_eq(v.as_slice(), chars_of("location.country").as_slice()) {
        return "country";
    }
    if chars_eq(v.as_slice(), chars_of("location.country_name").as_slice()) {
        return "country_name";
    }
    if chars_eq(v.as_slice(), chars_of("location.region").as_slice()) {
        return "region";
    }
    if chars_eq(v.as_slice(), chars_of("location.city").as_slice()) {
        return "city";
    }
    if chars_eq(v.as_slice(), chars_of("location.longitude").as_slice()) {
        return "longitude";
    }
    if chars_eq(v.as_slice(), chars_of("location.latitude").as_slice()) {
        return "latitude";
    }
    name
}

impl ReturnField {
    pub fn new(output_name: &str, api_name: &str) -> (f: ReturnField)
        ensures
            f.output_name@ == output_name@,
            f.api_name@ == api_name@,
    {
        ReturnField { output_name: output_name.to_owned(), api_name: api_name.to_owned() }
    }

    /// Create a field from a UI/API name, applying the documented `location.*`
    /// aliases while preserving the caller's output header.
    pub fn from_name(name: &str) -> (f: ReturnField)
        ensures
            f.output_name@ == name@,
            f.api_name@ == location_alias(name@),
    {
        let api_name = map_location_field(name).to_owned();
        ReturnField { output_name: name.to_owned(), api_name }
    }

    /// A field whose output name is its API name.
    pub fn api(name: &str) -> (f: ReturnField)
        ensures
            f.output_name@ == name@,
            f.api_name@ == name@,
    {
        ReturnField::new(name, name)
    }

    /// A copy with the same names.
    pub fn duplicate(&self) -> (f: ReturnField)
        ensures
            f@ == self@,
    {
        ReturnField { output_name: self.output_name.clone(), api_name: self.api_name.clone() }
    }
}

/// Copies a list of return fields.
pub fn duplicate_fields(fields: &[ReturnField]) -> (r: Vec<ReturnField>)
    ensures
        field_views(r@) == field_views(fields@),
{
    let mut r: Vec<ReturnField> = Vec::new();
    let mut i: usize = 0;
    while i < fields.len()
        invariant
            i <= fields@.len(),
            r@.len() == i,
            forall|k: int| 0 <= k < i ==> r@[k]@ == fields@[k]@,
        decreases fields@.len() - i,
    {
        r.push(fields[i].duplicate());
        i += 1;
    }
    assert(field_views(r@) =~= field_views(fields@));
    r
}

/// The comma-separated list of the given names.
pub open spec fn comma_join(names: Seq<Seq<char>>) -> Seq<char>
    decreases names.len(),
{
    if names.len() == 0 {
        Seq::empty()
    } else if names.len() == 1 {
        names[0]
    } else {
        comma_join(names.drop_last()) + seq![','] + names.last()
    }
}

/// The API names of a list of fields.
pub open spec fn api_names(fields: Seq<ReturnFieldView>) -> Seq<Seq<char>> {
    fields.map_values(|f: ReturnFieldView| f.api_name)
}

/// A validated search request shared by `/search/all` and `/search/next`.
///
/// This type has no `Debug` implementation because the raw query is
/// sensitive operational data.
pub struct SearchQuery {
    pub query: String,
    pub fields: Vec<ReturnField>,
    pub size: u32,
    pub full: Option<bool>,
}

impl SearchQuery {
    pub fn new(query: String, fields: Vec<ReturnField>, size: u32) -> (s: SearchQuery)
        ensures
            s.query@ == query@,
            s.fields@ == fields@,
            s.size == size,
            s.full == None::<bool>,
    {
        SearchQuery { query, fields, size, full: None }
    }

    pub fn with_full(self, full: bool) -> (s: SearchQuery)
        ensures
            s.query@ == self.query@,
            s.fields@ == self.fields@,
            s.size == self.size,
            s.full == Some(full),
    {
        SearchQuery { full: Some(full), ..self }
    }

    /// The `fields` request parameter: API names joined by commas.
    pub fn api_fields(&self) -> (s: String)
        ensures
            s@ == comma_join(api_names(field_views(self.fields@))),
    {
        let ghost names = api_names(field_views(self.fields@));
        let mut out = String::new();
        let mut i: usize = 0;
        while i < self.fields.len()
            invariant
                i <= self.fields@.len(),
                names == api_names(field_views(self.fields@)),
                out@ == comma_join(names.take(i as int)),
            decreases self.fields@.len() - i,
        {
            if i > 0 {
                push_char(&mut out, ',');
            }
            let name = chars_of(self.fields[i].api_name.as_str());
            let mut k: usize = 0;
            let ghost before = out@;
            while k < name.len()
                invariant
                    k <= name@.len(),
                    out@ == before + name@.take(k as int),
                decreases name@.len() - k,
            {
                push_char(&mut out, name[k]);
                assert(name@.take(k + 1) =~= name@.take(k as int).push(name@[k as int]));
                k += 1;
            }
            assert(name@.take(name@.len() as int) =~= name@);
            assert(names.take(i + 1).drop_last() =~= names.take(i as int));
            assert(names.take(i + 1).last() == names[i as int]);
            if i == 0 {
                assert(before =~= Seq::<char>::empty());
                assert(out@ =~= names[0]);
            } else {
                assert(out@ =~= comma_join(names.take(i as int)) + seq![','] + names[i as int]);
            }
            i += 1;
        }
        assert(names.take(self.fields@.len() as int) =~= names);
        out
    }
}

/// Attempt statistics of one logical search request.
#[derive(Clone, Copy, Debug, PartialEq, Eq)]
pub struct RetryStats {
    /// Number of HTTP attempts, including the successful/final attempt.
    pub attempts: u32,
    /// Number of attempts made after the initial request.
    pub retries: u32,
    /// A 502/503 retry can duplicate an upstream quota charge even if this batch
    /// eventually succeeds.
    pub possible_duplicate_charge: bool,
}

impl Default for RetryStats {
    fn default() -> (s: RetryStats)
        ensures
            s.attempts == 0,
            s.retries == 0,
            !s.possible_duplicate_charge,
    {
        RetryStats { attempts: 0, retries: 0, possible_duplicate_charge: false }
    }
}

/// A JSON value as received from FOFA.
///
/// `Number` keeps the number's JSON spelling. Object members keep their order;
/// keys are distinct.
#[derive(Debug, PartialEq)]
pub enum JsonValue {
    Null,
    Bool(bool),
    Number(String),
    Str(String),
    Array(Vec<JsonValue>),
    Object(Vec<(String, JsonValue)>),
}

/// The value of one result cell: a scalar, or the mark of a nested value.
pub enum CellView {
    Null,
    Bool(bool),
    Number(Seq<char>),
    Str(Seq<char>),
    Nested,
}

impl View for JsonValue {
    type V = CellView;

    open spec fn view(&self) -> CellView {
        match self {
            JsonValue::Null => CellView::Null,
            JsonValue::Bool(b) => CellView::Bool(*b),
            JsonValue::Number(n) => CellView::Number(n@),
            JsonValue::Str(s) => CellView::Str(s@),
            JsonValue::Array(_) => CellView::Nested,
            JsonValue::Object(_) => CellView::Nested,
        }
    }
}

impl JsonValue {
    pub open spec fn is_scalar_spec(&self) -> bool {
        !(self@ is Nested)
    }

    /// Null, boolean, number or string.
    #[verifier::when_used_as_spec(is_scalar_spec)]
    pub fn is_scalar(&self) -> (b: bool)
        ensures
            b == self.is_scalar_spec(),
    {
        match self {
            JsonValue::Array(_) | JsonValue::Object(_) => false,
            _ => true,
        }
    }

    /// A copy of a scalar value.
    pub fn copy_scalar(&self) -> (v: JsonValue)
        requires
            self.is_scalar_spec(),
        ensures
            v@ == self@,
    {
        match self {
            JsonValue::Null => JsonValue::Null,
            JsonValue::Bool(b) => JsonValue::Bool(*b),
            JsonValue::Number(n) => JsonValue::Number(n.clone()),
            JsonValue::Str(t) => JsonValue::Str(t.clone()),
            _ => JsonValue::Null,
        }
    }
}

impl JsonValue {
    /// A copy of the whole value: the same cell and the same JSON text.
    pub fn deep_copy(&self) -> (r: JsonValue)
        ensures
            r@ == self@,
            crate::export::json_text(r) == crate::export::json_text(*self),
        decreases self,
    {
        match self {
            JsonValue::Null => JsonValue::Null,
            JsonValue::Bool(b) => JsonValue::Bool(*b),
            JsonValue::Number(n) => JsonValue::Number(n.clone()),
            JsonValue::Str(t) => JsonValue::Str(t.clone()),
            JsonValue::Array(items) => {
                let mut out: Vec<JsonValue> = Vec::new();
                let mut i: usize = 0;
                while i < items.len()
                    invariant
                        i <= items@.len(),
                        *self == JsonValue::Array(*items),
                        out@.len() == i,
                        forall|k: int|
                            0 <= k < i ==> #[trigger] crate::export::json_text(out@[k])
                                == crate::export::json_text(items@[k]),
                    decreases items@.len() - i,
                {
                    assert(decreases_to!(*self => (*self)->Array_0));
                    assert(decreases_to!(*items => items@));
                    assert(decreases_to!(items@ => items@[i as int]));
                    let c = items[i].deep_copy();
                    out.push(c);
                    i += 1;
                }
                proof {
                    crate::export::lemma_json_items_text(out@, items@);
                }
                JsonValue::Array(out)
            },
            JsonValue::Object(members) => {
                let mut out: Vec<(String, JsonValue)> = Vec::new();
                let mut i: usize = 0;
                while i < members.len()
                    invariant
                        i <= members@.len(),
                        *self == JsonValue::Object(*members),
                        out@.len() == i,
                        forall|k: int| 0 <= k < i ==> (#[trigger] out@[k]).0@ == members@[k].0@,
                        forall|k: int|
                            0 <= k < i ==> crate::export::json_text((#[trigger] out@[k]).1)
                                == crate::export::json_text(members@[k].1),
                    decreases members@.len() - i,
                {
                    assert(decreases_to!(*self => (*self)->Object_0));
                    assert(decreases_to!(*members => members@));
                    assert(decreases_to!(members@ => members@[i as int]));
                    assert(decreases_to!(members@[i as int] => members@[i as int].1));
                    let k = members[i].0.clone();
                    let v = members[i].1.deep_copy();
                    out.push((k, v));
                    i += 1;
                }
                proof {
                    crate::export::lemma_json_members_text(out@, members@);
                }
                JsonValue::Object(out)
            },
        }
    }
}

pub open spec fn cell_views(cells: Seq<JsonValue>) -> Seq<CellView> {
    cells.map_values(|c: JsonValue| c@)
}

pub open spec fn row_views(rows: Seq<Vec<JsonValue>>) -> Seq<Seq<CellView>> {
    rows.map_values(|r: Vec<JsonValue>| cell_views(r@))
}

pub open spec fn protocol_error(reason: Seq<char>) -> FofaErrorView {
    FofaErrorView::UpstreamProtocol { reason }
}

/// A two-dimensional result row: the requested number of scalar cells.
pub open spec fn array_row(row: JsonValue, field_count: nat) -> Result<Seq<CellView>, FofaErrorView> {
    match row {
        JsonValue::Array(cells) => if cells@.len() != field_count {
            Err(
                protocol_error(
                    "结果列数为 "@ + decimal(cells@.len()) + "，请求字段数为 "@ + decimal(
                        field_count,
                    ),
                ),
            )
        } else if !(forall|k: int| 0 <= k < cells@.len() ==> (#[trigger] cells@[k]).is_scalar_spec()) {
            Err(protocol_error("二维 results 中出现嵌套值"@))
        } else {
            Ok(cell_views(cells@))
        },
        _ => Err(protocol_error("结果行不是数组"@)),
    }
}

/// The value of the first member of `entries` named `key`.
pub open spec fn member(entries: Seq<(String, JsonValue)>, key: Seq<char>, i: int) -> Option<
    JsonValue,
>
    decreases entries.len() - i,
{
    if i < 0 || i >= entries.len() {
        None
    } else if entries[i].0@ == key {
        Some(entries[i].1)
    } else {
        member(entries, key, i + 1)
    }
}

/// The cells of an object row for fields `j..`, absent members being null.
pub open spec fn object_cells(
    entries: Seq<(String, JsonValue)>,
    fields: Seq<ReturnFieldView>,
    j: int,
) -> Result<Seq<CellView>, FofaErrorView>
    decreases fields.len() - j,
{
    if j < 0 || j >= fields.len() {
        Ok(Seq::empty())
    } else {
        let value = match member(entries, fields[j].api_name, 0) {
            Some(v) => v@,
            None => CellView::Null,
        };
        if value is Nested {
            Err(protocol_error("对象结果字段 `"@ + fields[j].api_name + "` 包含嵌套值"@))
        } else {
            match object_cells(entries, fields, j + 1) {
                Ok(rest) => Ok(seq![value] + rest),
                Err(e) => Err(e),
            }
        }
    }
}

pub open spec fn object_row(row: JsonValue, fields: Seq<ReturnFieldView>) -> Result<
    Seq<CellView>,
    FofaErrorView,
> {
    match row {
        JsonValue::Object(entries) => object_cells(entries@, fields, 0),
        _ => Err(protocol_error("结果行不是对象"@)),
    }
}

/// Rows `i..` in order, stopping at the first bad row.
pub open spec fn rows_from(values: Seq<JsonValue>, fields: Seq<ReturnFieldView>, objects: bool, i: int) -> Result<
    Seq<Seq<CellView>>,
    FofaErrorView,
>
    decreases values.len() - i,
{
    if i < 0 || i >= values.len() {
        Ok(Seq::empty())
    } else {
        let row = if objects {
            object_row(values[i], fields)
        } else {
            array_row(values[i], fields.len())
        };
        match row {
            Err(e) => Err(e),
            Ok(r) => match rows_from(values, fields, objects, i + 1) {
                Ok(rest) => Ok(seq![r] + rest),
                Err(e) => Err(e),
            },
        }
    }
}

/// FOFA returns rows as arrays, as objects, or (for one field) as bare scalars;
/// every row is normalised to the requested field order.
pub open spec fn normalized_results(results: JsonValue, fields: Seq<ReturnFieldView>) -> Result<
    Seq<Seq<CellView>>,
    FofaErrorView,
> {
    if fields.len() == 0 {
        Err(protocol_error("无法在没有返回字段时标准化结果"@))
    } else {
        match results {
            JsonValue::Array(values) => {
                let vs = values@;
                if vs.len() == 0 {
                    Ok(Seq::empty())
                } else if forall|i: int| 0 <= i < vs.len() ==> (#[trigger] vs[i]) is Array {
                    rows_from(vs, fields, false, 0)
                } else if forall|i: int| 0 <= i < vs.len() ==> (#[trigger] vs[i]) is Object {
                    rows_from(vs, fields, true, 0)
                } else if forall|i: int| 0 <= i < vs.len() ==> (#[trigger] vs[i]).is_scalar_spec() {
                    if fields.len() != 1 {
                        Err(protocol_error("标量 results 仅能用于单个返回字段"@))
                    } else {
                        Ok(Seq::new(vs.len(), |i: int| seq![vs[i]@]))
                    }
                } else {
                    Err(protocol_error("results 混合了多种行结构"@))
                }
            },
            _ => Err(protocol_error("results 不是数组"@)),
        }
    }
}

proof fn lemma_member_first(entries: Seq<(String, JsonValue)>, key: Seq<char>, i: int)
    requires
        0 <= i <= entries.len(),
    ensures
        member(entries, key, i) is None <==> forall|k: int|
            i <= k < entries.len() ==> (#[trigger] entries[k]).0@ != key,
        forall|k: int|
            i <= k < entries.len() && (#[trigger] entries[k]).0@ == key && (forall|m: int|
                i <= m < k ==> entries[m].0@ != key) ==> member(entries, key, i) == Some(
                entries[k].1,
            ),
    decreases entries.len() - i,
{
    if i < entries.len() {
        lemma_member_first(entries, key, i + 1);
        assert forall|k: int|
            i <= k < entries.len() && (#[trigger] entries[k]).0@ == key && (forall|m: int|
                i <= m < k ==> entries[m].0@ != key) implies member(entries, key, i) == Some(
            entries[k].1,
        ) by {
            if k > i {
                assert(entries[i].0@ != key);
            }
        }
    }
}

proof fn lemma_object_cells_indexed(entries: Seq<(String, JsonValue)>, fields: Seq<ReturnFieldView>, j: int)
    requires
        0 <= j <= fields.len(),
    ensures
        object_cells(entries, fields, j) matches Ok(cs) ==> cs.len() == fields.len() - j && forall|t: int|
            0 <= t < cs.len() ==> #[trigger] cs[t] == match member(entries, fields[j + t].api_name, 0) {
                Some(v) => v@,
                None => CellView::Null,
            },
    decreases fields.len() - j,
{
    if j < fields.len() {
        lemma_object_cells_indexed(entries, fields, j + 1);
        if let Ok(cs) = object_cells(entries, fields, j) {
            if let Ok(rest) = object_cells(entries, fields, j + 1) {
                assert forall|t: int| 0 <= t < cs.len() implies #[trigger] cs[t] == match member(
                    entries,
                    fields[j + t].api_name,
                    0,
                ) {
                    Some(v) => v@,
                    None => CellView::Null,
                } by {
                    if t > 0 {
                        assert(cs[t] == rest[t - 1]);
                        assert(fields[j + t] == fields[(j + 1) + (t - 1)]);
                    }
                }
            }
        }
    }
}

proof fn lemma_object_cells_same_api(
    entries: Seq<(String, JsonValue)>,
    fields: Seq<ReturnFieldView>,
    other: Seq<ReturnFieldView>,
    j: int,
)
    requires
        other.len() == fields.len(),
        forall|i: int| 0 <= i < fields.len() ==> (#[trigger] other[i]).api_name == fields[i].api_name,
    ensures
        object_cells(entries, fields, j) == object_cells(entries, other, j),
    decreases fields.len() - j,
{
    if 0 <= j < fields.len() {
        lemma_object_cells_same_api(entries, fields, other, j + 1);
        assert(other[j].api_name == fields[j].api_name);
    }
}

proof fn lemma_rows_from_same_api(
    values: Seq<JsonValue>,
    fields: Seq<ReturnFieldView>,
    other: Seq<ReturnFieldView>,
    objects: bool,
    i: int,
)
    requires
        other.len() == fields.len(),
        forall|k: int| 0 <= k < fields.len() ==> (#[trigger] other[k]).api_name == fields[k].api_name,
    ensures
        rows_from(values, fields, objects, i) == rows_from(values, other, objects, i),
    decreases values.len() - i,
{
    if 0 <= i < values.len() {
        lemma_rows_from_same_api(values, fields, other, objects, i + 1);
        if let JsonValue::Object(es) = values[i] {
            lemma_object_cells_same_api(es@, fields, other, 0);
        }
    }
}

/// Object rows are read by API name. The cell of field `j` is the value of
/// the first member whose key is the field's API name, and null when no
/// member has that key; the output name under which the column is shown
/// plays no part, so two field lists with the same API names normalise any
/// results to the same rows.
pub proof fn lemma_object_rows_by_api_name(
    row: JsonValue,
    results: JsonValue,
    fields: Seq<ReturnFieldView>,
    other: Seq<ReturnFieldView>,
)
    requires
        other.len() == fields.len(),
        forall|i: int| 0 <= i < fields.len() ==> (#[trigger] other[i]).api_name == fields[i].api_name,
    ensures
        object_row(row, fields) == object_row(row, other),
        normalized_results(results, fields) == normalized_results(results, other),
        row matches JsonValue::Object(es) ==> (object_row(row, fields) matches Ok(cells) ==> {
            &&& cells.len() == fields.len()
            &&& forall|j: int, k: int|
                0 <= j < fields.len() && 0 <= k < es@.len() && (#[trigger] es@[k]).0@
                    == fields[j].api_name && (forall|m: int|
                    0 <= m < k ==> es@[m].0@ != fields[j].api_name) ==> #[trigger] cells[j]
                    == es@[k].1@
            &&& forall|j: int|
                0 <= j < fields.len() && (forall|k: int|
                    0 <= k < es@.len() ==> (#[trigger] es@[k]).0@ != fields[j].api_name)
                    ==> #[trigger] cells[j] is Null
        }),
{
    if let JsonValue::Object(es) = row {
        lemma_object_cells_same_api(es@, fields, other, 0);
        lemma_object_cells_indexed(es@, fields, 0);
        if let Ok(cells) = object_row(row, fields) {
            assert forall|j: int, k: int|
                0 <= j < fields.len() && 0 <= k < es@.len() && (#[trigger] es@[k]).0@
                    == fields[j].api_name && (forall|m: int|
                    0 <= m < k ==> es@[m].0@ != fields[j].api_name) implies #[trigger] cells[j]
                == es@[k].1@ by {
                lemma_member_first(es@, fields[j].api_name, 0);
                assert(fields[0 + j] == fields[j]);
            }
            assert forall|j: int|
                0 <= j < fields.len() && (forall|k: int|
                    0 <= k < es@.len() ==> (#[trigger] es@[k]).0@ != fields[j].api_name) implies #[trigger] cells[j] is Null by {
                lemma_member_first(es@, fields[j].api_name, 0);
                assert(fields[0 + j] == fields[j]);
            }
        }
    }
    if let JsonValue::Array(values) = results {
        lemma_rows_from_same_api(values@, fields, other, false, 0);
        lemma_rows_from_same_api(values@, fields, other, true, 0);
    }
}

fn all_rows(values: &Vec<JsonValue>) -> (r: (bool, bool, bool))
    ensures
        r.0 == (forall|i: int| 0 <= i < values@.len() ==> (#[trigger] values@[i]) is Array),
        r.1 == (forall|i: int| 0 <= i < values@.len() ==> (#[trigger] values@[i]) is Object),
        r.2 == (forall|i: int| 0 <= i < values@.len() ==> (#[trigger] values@[i]).is_scalar_spec()),
{
    let mut arrays = true;
    let mut objects = true;
    let mut scalars = true;
    let mut i: usize = 0;
    while i < values.len()
        invariant
            i <= values@.len(),
            arrays == (forall|k: int| 0 <= k < i ==> (#[trigger] values@[k]) is Array),
            objects == (forall|k: int| 0 <= k < i ==> (#[trigger] values@[k]) is Object),
            scalars == (forall|k: int| 0 <= k < i ==> (#[trigger] values@[k]).is_scalar_spec()),
        decreases values@.len() - i,
    {
        match &values[i] {
            JsonValue::Array(_) => {
                objects = false;
                scalars = false;
            },
            JsonValue::Object(_) => {
                arrays = false;
                scalars = false;
            },
            _ => {
                arrays = false;
                objects = false;
            },
        }
        i += 1;
    }
    (arrays, objects, scalars)
}

fn protocol_with_numbers(actual: usize, expected: usize) -> (e: FofaError)
    ensures
        e@ == protocol_error(
            "结果列数为 "@ + decimal(actual as nat) + "，请求字段数为 "@ + decimal(expected as nat),
        ),
{
    let mut reason = String::new();
    push_str(&mut reason, "结果列数为 ");
    push_decimal(&mut reason, actual as u64);
    push_str(&mut reason, "，请求字段数为 ");
    push_decimal(&mut reason, expected as u64);
    assert(reason@ =~= "结果列数为 "@ + decimal(actual as nat) + "，请求字段数为 "@ + decimal(
        expected as nat,
    ));
    FofaError::UpstreamProtocol { reason }
}

fn normalize_array_row(row: JsonValue, field_count: usize) -> (r: Result<Vec<JsonValue>, FofaError>)
    ensures
        match r {
            Ok(cells) => array_row(row, field_count as nat) == Ok::<Seq<CellView>, FofaErrorView>(
                cell_views(cells@),
            ),
            Err(e) => array_row(row, field_count as nat) == Err::<Seq<CellView>, FofaErrorView>(e@),
        },
{
    match row {
        JsonValue::Array(cells) => {
            if cells.len() != field_count {
                return Err(protocol_with_numbers(cells.len(), field_count));
            }
            let mut k: usize = 0;
            while k < cells.len()
                invariant
                    k <= cells@.len(),
                    row == JsonValue::Array(cells),
                    cells@.len() == field_count,
                    forall|m: int| 0 <= m < k ==> (#[trigger] cells@[m]).is_scalar_spec(),
                decreases cells@.len() - k,
            {
                if !cells[k].is_scalar() {
                    return Err(FofaError::protocol("二维 results 中出现嵌套值"));
                }
                k += 1;
            }
            Ok(cells)
        },
        _ => Err(FofaError::protocol("结果行不是数组")),
    }
}

fn find_member<'a>(entries: &'a Vec<(String, JsonValue)>, key: &[char]) -> (r: Option<&'a JsonValue>)
    ensures
        match r {
            Some(v) => member(entries@, key@, 0) == Some(*v),
            None => member(entries@, key@, 0) is None,
        },
{
    let mut i: usize = 0;
    while i < entries.len()
        invariant
            i <= entries@.len(),
            member(entries@, key@, 0) == member(entries@, key@, i as int),
        decreases entries@.len() - i,
    {
        let name = chars_of(entries[i].0.as_str());
        if chars_eq(name.as_slice(), key) {
            return Some(&entries[i].1);
        }
        i += 1;
    }
    None
}

fn normalize_object_row(row: JsonValue, fields: &[ReturnField]) -> (r: Result<Vec<JsonValue>, FofaError>)
    ensures
        match r {
            Ok(cells) => object_row(row, field_views(fields@)) == Ok::<Seq<CellView>, FofaErrorView>(
                cell_views(cells@),
            ),
            Err(e) => object_row(row, field_views(fields@)) == Err::<Seq<CellView>, FofaErrorView>(e@),
        },
{
    let ghost fv = field_views(fields@);
    match row {
        JsonValue::Object(entries) => {
            let mut cells: Vec<JsonValue> = Vec::new();
            let mut j: usize = 0;
            while j < fields.len()
                invariant
                    j <= fields@.len(),
                    fv == field_views(fields@),
                    row == JsonValue::Object(entries),
                    object_cells(entries@, fv, 0) matches Ok(all) ==> (object_cells(entries@, fv, j as int) matches Ok(rest) && all == cell_views(cells@) + rest),
                    object_cells(entries@, fv, 0) is Err ==> object_cells(entries@, fv, j as int) == object_cells(entries@, fv, 0),
                    object_cells(entries@, fv, j as int) is Ok ==> object_cells(entries@, fv, 0) is Ok,
                decreases fields@.len() - j,
            {
                let key = chars_of(fields[j].api_name.as_str());
                let value = match find_member(&entries, key.as_slice()) {
                    Some(v) => {
                        if !v.is_scalar() {
                            let mut reason = String::new();
                            push_str(&mut reason, "对象结果字段 `");
                            push_str(&mut reason, fields[j].api_name.as_str());
                            push_str(&mut reason, "` 包含嵌套值");
                            assert(reason@ =~= "对象结果字段 `"@ + fv[j as int].api_name + "` 包含嵌套值"@);
                            assert(object_cells(entries@, fv, j as int) == Err::<Seq<CellView>, FofaErrorView>(
                                protocol_error(reason@)));
                            return Err(FofaError::UpstreamProtocol { reason });
                        }
                        v.copy_scalar()
                    },
                    None => JsonValue::Null,
                };
                let ghost old_cells = cells@;
                cells.push(value);
                proof {
                    assert(cell_views(cells@) =~= cell_views(old_cells).push(value@));
                    match object_cells(entries@, fv, j + 1) {
                        Ok(rest2) => {
                            assert(object_cells(entries@, fv, j as int) == Ok::<Seq<CellView>, FofaErrorView>(seq![value@] + rest2));
                            if let Ok(all) = object_cells(entries@, fv, 0) {
                                assert(all =~= cell_views(cells@) + rest2);
                            }
                        },
                        Err(_) => {},
                    }
                }
                j += 1;
            }
            proof {
                if let Ok(all) = object_cells(entries@, fv, 0) {
                    assert(all =~= cell_views(cells@));
                }
            }
            Ok(cells)
        },
        _ => Err(FofaError::protocol("结果行不是对象")),
    }
}

/// Normalises FOFA's `results` to rows in the requested field order.
pub fn normalize_results(results: JsonValue, fields: &[ReturnField]) -> (r: Result<
    Vec<Vec<JsonValue>>,
    FofaError,
>)
    ensures
        match r {
            Ok(rows) => normalized_results(results, field_views(fields@)) == Ok::<
                Seq<Seq<CellView>>,
                FofaErrorView,
            >(row_views(rows@)),
            Err(e) => normalized_results(results, field_views(fields@)) == Err::<
                Seq<Seq<CellView>>,
                FofaErrorView,
            >(e@),
        },
{
    let ghost fv = field_views(fields@);
    if fields.len() == 0 {
        return Err(FofaError::protocol("无法在没有返回字段时标准化结果"));
    }
    match results {
        JsonValue::Array(values) => {
            if values.len() == 0 {
                let rows: Vec<Vec<JsonValue>> = Vec::new();
                assert(row_views(rows@) =~= Seq::<Seq<CellView>>::empty());
                return Ok(rows);
            }
            let (arrays, objects, scalars) = all_rows(&values);
            if arrays || objects {
                let ghost vs = values@;
                let mut rows: Vec<Vec<JsonValue>> = Vec::new();
                assert(row_views(rows@) =~= Seq::<Seq<CellView>>::empty());
                assert(normalized_results(results, fv) == rows_from(vs, fv, !arrays, 0));
                for row in it: values
                    invariant
                        it.seq() == vs,
                        normalized_results(results, fv) == rows_from(vs, fv, !arrays, 0),
                        fv == field_views(fields@),
                        fields@.len() > 0,
                        rows_from(vs, fv, !arrays, 0) matches Ok(all) ==> (rows_from(
                            vs,
                            fv,
                            !arrays,
                            it.index() as int,
                        ) matches Ok(rest) && all == row_views(rows@) + rest),
                        rows_from(vs, fv, !arrays, 0) is Err ==> rows_from(
                            vs,
                            fv,
                            !arrays,
                            it.index() as int,
                        ) == rows_from(vs, fv, !arrays, 0),
                        rows_from(vs, fv, !arrays, it.index() as int) is Ok ==> rows_from(
                            vs,
                            fv,
                            !arrays,
                            0,
                        ) is Ok,
                {
                    let ghost i = it.index() as int;
                    assert(row == vs[i]);
                    let normalized = if arrays {
                        normalize_array_row(row, fields.len())
                    } else {
                        normalize_object_row(row, fields)
                    };
                    match normalized {
                        Err(e) => {
                            assert(rows_from(vs, fv, !arrays, i) == Err::<Seq<Seq<CellView>>, FofaErrorView>(e@));
                            return Err(e);
                        },
                        Ok(cells) => {
                            let ghost old_rows = rows@;
                            rows.push(cells);
                            proof {
                                assert(row_views(rows@) =~= row_views(old_rows).push(cell_views(cells@)));
                                match rows_from(vs, fv, !arrays, i + 1) {
                                    Ok(rest2) => {
                                        if let Ok(all) = rows_from(vs, fv, !arrays, 0) {
                                            assert(all =~= row_views(rows@) + rest2);
                                        }
                                    },
                                    Err(_) => {},
                                }
                            }
                        },
                    }
                }
                proof {
                    if let Ok(all) = rows_from(vs, fv, !arrays, 0) {
                        assert(all =~= row_views(rows@));
                    }
                }
                Ok(rows)
            } else if scalars {
                if fields.len() != 1 {
                    return Err(FofaError::protocol("标量 results 仅能用于单个返回字段"));
                }
                let ghost vs = values@;
                let mut rows: Vec<Vec<JsonValue>> = Vec::new();
                for value in it: values
                    invariant
                        it.seq() == vs,
                        rows@.len() == it.index(),
                        forall|k: int| 0 <= k < it.index() ==> #[trigger] cell_views(rows@[k]@) == seq![vs[k]@],
                {
                    let mut row: Vec<JsonValue> = Vec::new();
                    row.push(value);
                    assert(cell_views(row@) =~= seq![vs[it.index() as int]@]);
                    rows.push(row);
                }
                assert(row_views(rows@) =~= Seq::new(vs.len(), |i: int| seq![vs[i]@]));
                Ok(rows)
            } else {
                Err(FofaError::protocol("results 混合了多种行结构"))
            }
        },
        _ => Err(FofaError::protocol("results 不是数组")),
    }
}

/// A normalised FOFA batch. Rows always follow the requested field order.
///
/// This type has no `Debug` implementation because it holds queries and
/// returned asset data.
pub struct SearchResponse {
    pub query: Option<String>,
    pub mode: Option<String>,
    pub matched_size: Option<u64>,
    pub page: Option<u64>,
    pub rows: Vec<Vec<JsonValue>>,
    pub next: Option<String>,
    pub tip: Option<String>,
    pub retry: RetryStats,
}

impl SearchResponse {
    pub fn batch_size(&self) -> (n: usize)
        ensures
            n == self.rows@.len(),
    {
        self.rows.len()
    }
}

/// The decoded body of a `/search/all` or `/search/next` response.
pub struct RawSearchResponse {
    pub error: bool,
    pub errmsg: Option<String>,
    pub query: Option<String>,
    pub mode: Option<String>,
    pub size: Option<u64>,
    pub page: Option<u64>,
    pub results: Option<JsonValue>,
    pub next: Option<String>,
    pub tip: Option<String>,
}

/// A cursor is kept only when it is non-empty.
pub open spec fn effective_cursor(next: Option<String>) -> Option<Seq<char>> {
    match next {
        Some(c) => if c@.len() == 0 {
            None
        } else {
            Some(c@)
        },
        None => None,
    }
}

pub open spec fn option_view(o: Option<String>) -> Option<Seq<char>> {
    match o {
        Some(s) => Some(s@),
        None => None,
    }
}

impl RawSearchResponse {
    /// Turns a successful response into normalised rows. Business errors must
    /// be handled before this is called.
    pub fn normalize(self, fields: &[ReturnField]) -> (r: Result<SearchResponse, FofaError>)
        ensures
            self.error ==> (r matches Err(e) && e@ == protocol_error(
                "业务错误必须在结果标准化之前处理"@,
            )),
            !self.error && self.results is None ==> (r matches Err(e) && e@ == protocol_error(
                "成功响应缺少 results 字段"@,
            )),
            (!self.error && self.results is Some) ==> match r {
                Ok(resp) => {
                    &&& normalized_results(self.results->Some_0, field_views(fields@)) == Ok::<
                        Seq<Seq<CellView>>,
                        FofaErrorView,
                    >(row_views(resp.rows@))
                    &&& option_view(resp.query) == option_view(self.query)
                    &&& option_view(resp.mode) == option_view(self.mode)
                    &&& resp.matched_size == self.size
                    &&& resp.page == self.page
                    &&& option_view(resp.next) == effective_cursor(self.next)
                    &&& option_view(resp.tip) == option_view(self.tip)
                    &&& resp.retry.attempts == 0 && resp.retry.retries == 0
                        && !resp.retry.possible_duplicate_charge
                },
                Err(e) => normalized_results(self.results->Some_0, field_views(fields@)) == Err::<
                    Seq<Seq<CellView>>,
                    FofaErrorView,
                >(e@),
            },
    {
        if self.error {
            return Err(FofaError::protocol("业务错误必须在结果标准化之前处理"));
        }
        let results = match self.results {
            Some(results) => results,
            None => return Err(FofaError::protocol("成功响应缺少 results 字段")),
        };
        let rows = match normalize_results(results, fields) {
            Ok(rows) => rows,
            Err(e) => return Err(e),
        };
        let next = match self.next {
            Some(cursor) => if cursor.as_str().is_empty() {
                None
            } else {
                Some(cursor)
            },
            None => None,
        };
        Ok(
            SearchResponse {
                query: self.query,
                mode: self.mode,
                matched_size: self.size,
                page: self.page,
                rows,
                next,
                tip: self.tip,
                retry: RetryStats::default(),
            },
        )
    }
}

/// A relay time field may be a display string or Unix seconds.
#[derive(Debug, PartialEq, Eq)]
pub enum FlexibleTime {
    Text(String),
    Unix(i64),
}

/// The decimal spelling of a signed integer.
pub open spec fn signed_decimal(n: int) -> Seq<char> {
    if n < 0 {
        seq!['-'] + decimal((-n) as nat)
    } else {
        decimal(n as nat)
    }
}

impl FlexibleTime {
    /// The time as shown: the text, or the number of seconds.
    pub fn text(&self) -> (s: String)
        ensures
            s@ == match self {
                FlexibleTime::Text(t) => t@,
                FlexibleTime::Unix(n) => signed_decimal(*n as int),
            },
    {
        let mut s = String::new();
        match self {
            FlexibleTime::Text(t) => push_str(&mut s, t.as_str()),
            FlexibleTime::Unix(n) => {
                if *n < 0 {
                    push_char(&mut s, '-');
                    let magnitude: u64 = if *n == i64::MIN {
                        9223372036854775808u64
                    } else {
                        (-*n) as u64
                    };
                    push_decimal(&mut s, magnitude);
                } else {
                    push_decimal(&mut s, *n as u64);
                }
            },
        }
        assert(s@ =~= match self {
            FlexibleTime::Text(t) => t@,
            FlexibleTime::Unix(n) => signed_decimal(*n as int),
        });
        s
    }
}

/// Preserves the difference between an absent field and JSON `null`.
#[derive(Debug, PartialEq, Eq)]
pub enum FieldState<T> {
    Missing,
    Null,
    Value(T),
}

impl<T> FieldState<T> {
    pub fn is_missing(&self) -> (b: bool)
        ensures
            b == (*self is Missing),
    {
        match self {
            FieldState::Missing => true,
            _ => false,
        }
    }

    pub fn as_ref(&self) -> (r: FieldState<&T>)
        ensures
            (*self is Missing) ==> (r is Missing),
            (*self is Null) ==> (r is Null),
            (*self is Value) ==> (r is Value && *r->Value_0 == self->Value_0),
    {
        match self {
            FieldState::Missing => FieldState::Missing,
            FieldState::Null => FieldState::Null,
            FieldState::Value(value) => FieldState::Value(value),
        }
    }
}

/// Quota data reported by a relay's `/userinfo`.
#[derive(Debug, PartialEq, Eq)]
pub struct QuotaInfo {
    pub status: FieldState<i32>,
    pub status_text: Option<String>,
    pub activate_time: FieldState<FlexibleTime>,
    pub expire_at: FieldState<FlexibleTime>,
    pub expire_seconds: FieldState<i64>,
    pub remaining_api_calls: FieldState<i64>,
    pub remaining_item_count: FieldState<i64>,
}

/// The names of the quota fields that a response left out, in field order.
pub open spec fn missing_quota_fields(q: QuotaInfo) -> Seq<Seq<char>> {
    let s0: Seq<Seq<char>> = Seq::empty();
    let s1 = if q.status is Missing { s0.push("status"@) } else { s0 };
    let s2 = if q.activate_time is Missing { s1.push("activate_time"@) } else { s1 };
    let s3 = if q.expire_at is Missing { s2.push("expire_at"@) } else { s2 };
    let s4 = if q.expire_seconds is Missing { s3.push("expire_seconds"@) } else { s3 };
    let s5 = if q.remaining_api_calls is Missing { s4.push("remaining_api_calls"@) } else { s4 };
    if q.remaining_item_count is Missing { s5.push("remaining_item_count"@) } else { s5 }
}

impl QuotaInfo {
    /// Field names missing from the response. The UI renders these as unknown
    /// and marks the optional quota module protocol-incompatible.
    pub fn missing_fields(&self) -> (r: Vec<&'static str>)
        ensures
            r@.map_values(|s: &str| s@) == missing_quota_fields(*self),
    {
        let mut missing: Vec<&'static str> = Vec::new();
        if self.status.is_missing() {
            missing.push("status");
        }
        if self.activate_time.is_missing() {
            missing.push("activate_time");
        }
        if self.expire_at.is_missing() {
            missing.push("expire_at");
        }
        if self.expire_seconds.is_missing() {
            missing.push("expire_seconds");
        }
        if self.remaining_api_calls.is_missing() {
            missing.push("remaining_api_calls");
        }
        if self.remaining_item_count.is_missing() {
            missing.push("remaining_item_count");
        }
        assert(missing@.map_values(|s: &str| s@) =~= missing_quota_fields(*self));
        missing
    }

    /// Every quota field was present (possibly null).
    pub fn protocol_compatible(&self) -> (b: bool)
        ensures
            b == (missing_quota_fields(*self).len() == 0),
    {
        self.missing_fields().len() == 0
    }
}

/// The `/userinfo` response envelope.
#[derive(Debug, PartialEq, Eq)]
pub struct UserInfoEnvelope {
    pub success: Option<bool>,
    pub key_type: Option<String>,
    pub data: Option<QuotaInfo>,
}

impl UserInfoEnvelope {
    pub fn protocol_compatible(&self) -> (b: bool)
        ensures
            b == (self.data matches Some(q) && missing_quota_fields(q).len() == 0),
    {
        match &self.data {
            Some(q) => q.protocol_compatible(),
            None => false,
        }
    }
}

} // verus!
