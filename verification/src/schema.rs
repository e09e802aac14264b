//! Schema of frontmatter fields and validation against it.

use vstd::prelude::*;
use crate::text::{
    chars_of, clone_strings, contains_str, is_i64, join, owned, push_str, spec_is_i64, spec_join,
    spec_utf8_len, str_eq, strs, utf8_len,
};
use crate::yaml::YamlFrontmatter;

verus! {

/// Type of a field.
#[derive(Debug, Clone)]
pub enum FieldType {
    String,
    Integer,
    Boolean,
    Date,
    Array,
    Enum(Vec<String>),
}

impl Default for FieldType {
    fn default() -> (t: FieldType)
        ensures
            t is String,
    {
        FieldType::String
    }
}

/// Specification of a field.
#[derive(Debug, Clone)]
pub struct FieldSpec {
    pub name: String,
    pub field_type: FieldType,
    pub required: bool,
    pub default_value: Option<String>,
    pub description: Option<String>,
    pub pattern: Option<String>,
}

impl FieldSpec {
    /// A required field.
    pub fn required(name: &str, field_type: FieldType) -> (f: FieldSpec)
        ensures
            f.name@ == name@,
            f.field_type == field_type,
            f.required,
            f.default_value is None && f.description is None && f.pattern is None,
    {
        FieldSpec { name: owned(name), field_type, required: true, default_value: None, description: None, pattern: None }
    }

    /// An optional field.
    pub fn optional(name: &str, field_type: FieldType) -> (f: FieldSpec)
        ensures
            f.name@ == name@,
            f.field_type == field_type,
            !f.required,
            f.default_value is None && f.description is None && f.pattern is None,
    {
        FieldSpec { name: owned(name), field_type, required: false, default_value: None, description: None, pattern: None }
    }

    /// The same field with a default value.
    pub fn with_default(self, value: &str) -> (f: FieldSpec)
        ensures
            f.default_value matches Some(d) && d@ == value@,
            f == (FieldSpec { default_value: f.default_value, ..self }),
    {
        FieldSpec { default_value: Some(owned(value)), ..self }
    }
}

/// A schema: a named, versioned list of fields.
#[derive(Debug, Clone)]
pub struct SchemaDefinition {
    pub name: String,
    pub version: String,
    pub fields: Vec<FieldSpec>,
}

impl Default for SchemaDefinition {
    fn default() -> (s: SchemaDefinition)
        ensures
            s.name@.len() == 0 && s.version@.len() == 0 && s.fields@.len() == 0,
    {
        SchemaDefinition { name: String::new(), version: String::new(), fields: Vec::new() }
    }
}

/// The fields of `fs` that satisfy `required == want`, in order.
pub open spec fn fields_with(fs: Seq<FieldSpec>, want: bool) -> Seq<FieldSpec>
    decreases fs.len(),
{
    if fs.len() == 0 {
        Seq::empty()
    } else {
        let r = fields_with(fs.drop_last(), want);
        if fs.last().required == want { r.push(fs.last()) } else { r }
    }
}

/// The values allowed for `status` in the default schema.
pub open spec fn status_values() -> Seq<Seq<char>> {
    seq!["draft"@, "active"@, "deprecated"@, "archived"@, "reviewed"@]
}

impl SchemaDefinition {
    /// An empty schema of version `1.0`.
    pub fn new(name: &str) -> (s: SchemaDefinition)
        ensures
            s.name@ == name@,
            s.version@ == "1.0"@,
            s.fields@.len() == 0,
    {
        SchemaDefinition { name: owned(name), version: owned("1.0"), fields: Vec::new() }
    }

    /// The schema with one more field at the end.
    pub fn add_field(self, field: FieldSpec) -> (s: SchemaDefinition)
        ensures
            s.name == self.name,
            s.version == self.version,
            s.fields@ == self.fields@.push(field),
    {
        let mut s = self;
        s.fields.push(field);
        s
    }

    fn select(&self, want: bool) -> (r: Vec<&FieldSpec>)
        ensures
            r@.map_values(|f: &FieldSpec| *f) == fields_with(self.fields@, want),
    {
        let mut r: Vec<&FieldSpec> = Vec::new();
        let mut i: usize = 0;
        while i < self.fields.len()
            invariant
                i <= self.fields@.len(),
                r@.map_values(|f: &FieldSpec| *f) == fields_with(self.fields@.subrange(0, i as int), want),
            decreases self.fields@.len() - i,
        {
            proof {
                assert(self.fields@.subrange(0, i + 1).drop_last() =~= self.fields@.subrange(0, i as int));
            }
            if self.fields[i].required == want {
                let ghost r0 = r@;
                r.push(&self.fields[i]);
                assert(r@.map_values(|f: &FieldSpec| *f) =~= r0.map_values(|f: &FieldSpec| *f).push(self.fields@[i as int]));
            }
            i = i + 1;
        }
        assert(self.fields@.subrange(0, self.fields@.len() as int) =~= self.fields@);
        r
    }

    /// The required fields, in order.
    pub fn required_fields(&self) -> (r: Vec<&FieldSpec>)
        ensures
            r@.map_values(|f: &FieldSpec| *f) == fields_with(self.fields@, true),
    {
        self.select(true)
    }

    /// The optional fields, in order.
    pub fn optional_fields(&self) -> (r: Vec<&FieldSpec>)
        ensures
            r@.map_values(|f: &FieldSpec| *f) == fields_with(self.fields@, false),
    {
        self.select(false)
    }

    /// The schema of the project's frontmatter: required `id` and `title`,
    /// optional `parent`, `breadcrumb`, `status` (one of five values,
    /// default `draft`), `created`, `last_updated` (dates), `author`,
    /// `domain`, `tags` (array) and `priority`.
    pub fn default_oc_schema() -> (s: SchemaDefinition)
        ensures
            s.name@ == "oc_diagdoc"@,
            s.version@ == "1.0"@,
            s.fields@.len() == 11,
            s.fields@.map_values(|f: FieldSpec| (f.name@, f.required)) == seq![
                ("id"@, true), ("title"@, true), ("parent"@, false), ("breadcrumb"@, false),
                ("status"@, false), ("created"@, false), ("last_updated"@, false), ("author"@, false),
                ("domain"@, false), ("tags"@, false), ("priority"@, false)],
            s.fields@[0].field_type is String && s.fields@[1].field_type is String,
            s.fields@[2].field_type is String && s.fields@[3].field_type is String,
            s.fields@[4].field_type matches FieldType::Enum(v) && strs(v@) == status_values(),
            s.fields@[4].default_value matches Some(d) && d@ == "draft"@,
            s.fields@[5].field_type is Date && s.fields@[6].field_type is Date,
            s.fields@[7].field_type is String && s.fields@[8].field_type is String,
            s.fields@[9].field_type is Array && s.fields@[10].field_type is String,
            forall|i: int| 0 <= i < 11 && i != 4 ==> (#[trigger] s.fields@[i]).default_value is None,
    {
        let mut statuses: Vec<String> = Vec::new();
        statuses.push(owned("draft"));
        statuses.push(owned("active"));
        statuses.push(owned("deprecated"));
        statuses.push(owned("archived"));
        statuses.push(owned("reviewed"));
        assert(strs(statuses@) =~= status_values());
        let s = SchemaDefinition::new("oc_diagdoc")
            .add_field(FieldSpec::required("id", FieldType::String))
            .add_field(FieldSpec::required("title", FieldType::String))
            .add_field(FieldSpec::optional("parent", FieldType::String))
            .add_field(FieldSpec::optional("breadcrumb", FieldType::String))
            .add_field(FieldSpec::optional("status", FieldType::Enum(statuses)).with_default("draft"))
            .add_field(FieldSpec::optional("created", FieldType::Date))
            .add_field(FieldSpec::optional("last_updated", FieldType::Date))
            .add_field(FieldSpec::optional("author", FieldType::String))
            .add_field(FieldSpec::optional("domain", FieldType::String))
            .add_field(FieldSpec::optional("tags", FieldType::Array))
            .add_field(FieldSpec::optional("priority", FieldType::String));
        assert(s.fields@.map_values(|f: FieldSpec| (f.name@, f.required)) =~= seq![
                ("id"@, true), ("title"@, true), ("parent"@, false), ("breadcrumb"@, false),
                ("status"@, false), ("created"@, false), ("last_updated"@, false), ("author"@, false),
                ("domain"@, false), ("tags"@, false), ("priority"@, false)]);
        s
    }
}

/// Kind of a schema violation.
#[derive(Debug, Clone, Copy, PartialEq, Eq)]
pub enum ViolationType {
    MissingRequired,
    WrongType,
    InvalidValue,
    PatternMismatch,
}

/// A violation of the schema.
#[derive(Debug, Clone)]
pub struct SchemaViolation {
    pub field: String,
    pub violation_type: ViolationType,
    pub message: String,
    pub suggestion: Option<String>,
}

/// Result of validating a frontmatter.
#[derive(Debug)]
pub struct ValidationResult {
    pub is_valid: bool,
    pub violations: Vec<SchemaViolation>,
    pub defaults_applicable: Vec<(String, String)>,
}

impl ValidationResult {
    /// A valid result without violations.
    pub fn valid() -> (r: ValidationResult)
        ensures
            r.is_valid && r.violations@.len() == 0 && r.defaults_applicable@.len() == 0,
    {
        ValidationResult { is_valid: true, violations: Vec::new(), defaults_applicable: Vec::new() }
    }

    /// Records a violation; the result is no longer valid.
    pub fn add_violation(&mut self, violation: SchemaViolation)
        ensures
            !final(self).is_valid,
            final(self).violations@ == old(self).violations@.push(violation),
            final(self).defaults_applicable == old(self).defaults_applicable,
    {
        self.is_valid = false;
        self.violations.push(violation);
    }
}

/// The value of a named frontmatter field, as the validation reads it:
/// required texts count when non-empty, optional ones when present.
pub open spec fn fm_field(fm: YamlFrontmatter, name: Seq<char>) -> Option<Seq<char>> {
    let opt = |o: Option<String>| match o { Some(s) => Some(s@), None => None };
    if name == "id"@ {
        if fm.id@.len() > 0 { Some(fm.id@) } else { None }
    } else if name == "title"@ {
        if fm.title@.len() > 0 { Some(fm.title@) } else { None }
    } else if name == "parent"@ {
        opt(fm.parent)
    } else if name == "breadcrumb"@ {
        if fm.breadcrumb@.len() > 0 { Some(fm.breadcrumb@) } else { None }
    } else if name == "status"@ {
        if fm.status@.len() > 0 { Some(fm.status@) } else { None }
    } else if name == "created"@ {
        opt(fm.created)
    } else if name == "last_updated"@ {
        opt(fm.last_updated)
    } else if name == "author"@ {
        opt(fm.author)
    } else if name == "domain"@ {
        opt(fm.domain)
    } else if name == "doc_type"@ {
        opt(fm.doc_type)
    } else if name == "priority"@ {
        opt(fm.priority)
    } else {
        None
    }
}

/// `value` has the given type: integers parse as `i64`, booleans are
/// `true`/`false`, dates have at least ten bytes with `-` as fifth character.
pub open spec fn type_ok(value: Seq<char>, t: FieldType) -> bool {
    match t {
        FieldType::Integer => spec_is_i64(value),
        FieldType::Boolean => value == "true"@ || value == "false"@,
        FieldType::Date => spec_utf8_len(value) >= 10 && value.len() > 4 && value[4] == '-',
        _ => true,
    }
}

/// Name of a non-enumerated type, as written by `{:?}`.
pub open spec fn field_type_label(t: FieldType) -> Seq<char> {
    match t {
        FieldType::String => "String"@,
        FieldType::Integer => "Integer"@,
        FieldType::Boolean => "Boolean"@,
        FieldType::Date => "Date"@,
        FieldType::Array => "Array"@,
        FieldType::Enum(_) => "Enum"@,
    }
}

/// Texts of a violation: field, kind, message, suggestion.
pub open spec fn violation_view(v: SchemaViolation) -> (Seq<char>, ViolationType, Seq<char>, Option<Seq<char>>) {
    (v.field@, v.violation_type, v.message@, match v.suggestion { Some(s) => Some(s@), None => None })
}

/// The name of a type in messages, as `{:?}` writes it.
pub open spec fn type_debug(t: FieldType) -> Seq<char> {
    match t {
        FieldType::Enum(v) => "Enum("@ + debug_strings(strs(v@)) + ")"@,
        _ => field_type_label(t),
    }
}

/// Violations and applicable defaults that validating the fields `fs`
/// against `fm` yields, in field order.
pub open spec fn spec_validate(fm: YamlFrontmatter, fs: Seq<FieldSpec>) -> (
    Seq<(Seq<char>, ViolationType, Seq<char>, Option<Seq<char>>)>,
    Seq<(Seq<char>, Seq<char>)>,
)
    decreases fs.len(),
{
    if fs.len() == 0 {
        (Seq::empty(), Seq::empty())
    } else {
        let (vs, ds) = spec_validate(fm, fs.drop_last());
        let f = fs.last();
        match fm_field(fm, f.name@) {
            None => if f.required {
                let sugg = match f.default_value {
                    Some(d) => Some("Agregar: "@ + f.name@ + ": "@ + d@),
                    None => None,
                };
                (vs.push((f.name@, ViolationType::MissingRequired,
                    "Campo requerido '"@ + f.name@ + "' no encontrado"@, sugg)), ds)
            } else {
                match f.default_value {
                    Some(d) => (vs, ds.push((f.name@, d@))),
                    None => (vs, ds),
                }
            },
            Some(value) => {
                let vs1 = if !type_ok(value, f.field_type) {
                    vs.push((f.name@, ViolationType::WrongType,
                        "Campo '"@ + f.name@ + "' tiene tipo incorrecto. Esperado: "@ + type_debug(f.field_type), None))
                } else {
                    vs
                };
                match f.field_type {
                    FieldType::Enum(allowed) => if !strs(allowed@).contains(value) {
                        (vs1.push((f.name@, ViolationType::InvalidValue,
                            "Valor '"@ + value + "' no permitido para '"@ + f.name@ + "'. Valores válidos: "@
                                + debug_strings(strs(allowed@)),
                            Some("Usar uno de: "@
                            + spec_join(strs(allowed@), ", "@)))), ds)
                    } else {
                        (vs1, ds)
                    },
                    _ => (vs1, ds),
                }
            },
        }
    }
}

fn opt_text(o: &Option<String>) -> (r: Option<String>)
    ensures
        match o { Some(s) => r matches Some(t) && t@ == s@, None => r is None },
{
    match o {
        Some(s) => Some(s.clone()),
        None => None,
    }
}

fn non_empty(s: &String) -> (r: Option<String>)
    ensures
        if s@.len() > 0 { r matches Some(t) && t@ == s@ } else { r is None },
{
    if s.as_str().unicode_len() > 0 { Some(s.clone()) } else { None }
}

/// The value of field `name` in `fm`.
fn field_value(fm: &YamlFrontmatter, name: &str) -> (r: Option<String>)
    ensures
        match fm_field(*fm, name@) { Some(v) => r matches Some(t) && t@ == v, None => r is None },
{
    if str_eq(name, "id") {
        non_empty(&fm.id)
    } else if str_eq(name, "title") {
        non_empty(&fm.title)
    } else if str_eq(name, "parent") {
        opt_text(&fm.parent)
    } else if str_eq(name, "breadcrumb") {
        non_empty(&fm.breadcrumb)
    } else if str_eq(name, "status") {
        non_empty(&fm.status)
    } else if str_eq(name, "created") {
        opt_text(&fm.created)
    } else if str_eq(name, "last_updated") {
        opt_text(&fm.last_updated)
    } else if str_eq(name, "author") {
        opt_text(&fm.author)
    } else if str_eq(name, "domain") {
        opt_text(&fm.domain)
    } else if str_eq(name, "doc_type") {
        opt_text(&fm.doc_type)
    } else if str_eq(name, "priority") {
        opt_text(&fm.priority)
    } else {
        None
    }
}

/// Whether `value` has type `t`.
fn validate_type(value: &str, t: &FieldType) -> (r: bool)
    ensures
        r == type_ok(value@, *t),
{
    match t {
        FieldType::Integer => is_i64(value),
        FieldType::Boolean => str_eq(value, "true") || str_eq(value, "false"),
        FieldType::Date => {
            let c = chars_of(value);
            utf8_len(&c) >= 10 && c.len() > 4 && c[4] == '-'
        },
        _ => true,
    }
}

/// `{:?}` of a list of strings (`<Vec<String> as Debug>::fmt`).
pub uninterp spec fn debug_strings(v: Seq<Seq<char>>) -> Seq<char>;

/// The `Debug` text of a list of strings, as `format!("{:?}", v)` writes it.
#[verifier::external_body]
fn debug_list(v: &Vec<String>) -> (s: String)
    ensures
        s@ == debug_strings(strs(v@)),
{
    format!("{:?}", v)
}

fn type_debug_name(t: &FieldType) -> (s: String)
    ensures
        s@ == type_debug(*t),
{
    match t {
        FieldType::String => owned("String"),
        FieldType::Integer => owned("Integer"),
        FieldType::Boolean => owned("Boolean"),
        FieldType::Date => owned("Date"),
        FieldType::Array => owned("Array"),
        FieldType::Enum(v) => {
            let mut s = owned("Enum(");
            let d = debug_list(v);
            push_str(&mut s, d.as_str());
            push_str(&mut s, ")");
            s
        },
    }
}

/// Validates a frontmatter against a schema. A missing required field is
/// a violation; a present value of the wrong type, or outside the allowed
/// values of an enumeration, is a violation; an absent optional field with
/// a default is listed among the applicable defaults.
pub fn validate_frontmatter(frontmatter: &YamlFrontmatter, schema: &SchemaDefinition) -> (r: ValidationResult)
    ensures
        r.violations@.map_values(|v: SchemaViolation| violation_view(v)) == spec_validate(*frontmatter, schema.fields@).0,
        r.defaults_applicable@.map_values(|p: (String, String)| (p.0@, p.1@)) == spec_validate(*frontmatter, schema.fields@).1,
        r.is_valid == (spec_validate(*frontmatter, schema.fields@).0.len() == 0),
{
    let mut result = ValidationResult::valid();
    let mut i: usize = 0;
    while i < schema.fields.len()
        invariant
            i <= schema.fields@.len(),
            result.violations@.map_values(|v: SchemaViolation| violation_view(v)) == spec_validate(*frontmatter, schema.fields@.subrange(0, i as int)).0,
            result.defaults_applicable@.map_values(|p: (String, String)| (p.0@, p.1@)) == spec_validate(*frontmatter, schema.fields@.subrange(0, i as int)).1,
            result.is_valid == (result.violations@.len() == 0),
        decreases schema.fields@.len() - i,
    {
        let f = &schema.fields[i];
        proof {
            assert(schema.fields@.subrange(0, i + 1).drop_last() =~= schema.fields@.subrange(0, i as int));
            assert(schema.fields@.subrange(0, i + 1).last() == *f);
        }
        let ghost v0 = result.violations@;
        let ghost d0 = result.defaults_applicable@;
        match field_value(frontmatter, f.name.as_str()) {
            None => {
                if f.required {
                    let mut message = owned("Campo requerido '");
                    push_str(&mut message, f.name.as_str());
                    push_str(&mut message, "' no encontrado");
                    let suggestion = match &f.default_value {
                        Some(d) => {
                            let mut s = owned("Agregar: ");
                            push_str(&mut s, f.name.as_str());
                            push_str(&mut s, ": ");
                            push_str(&mut s, d.as_str());
                            Some(s)
                        },
                        None => None,
                    };
                    let v = SchemaViolation {
                        field: f.name.clone(),
                        violation_type: ViolationType::MissingRequired,
                        message,
                        suggestion,
                    };
                    result.add_violation(v);
                    assert(result.violations@.map_values(|v: SchemaViolation| violation_view(v))
                        =~= v0.map_values(|v: SchemaViolation| violation_view(v)).push(violation_view(v)));
                } else {
                    match &f.default_value {
                        Some(d) => {
                            let p = (f.name.clone(), d.clone());
                            result.defaults_applicable.push(p);
                            assert(result.defaults_applicable@.map_values(|p: (String, String)| (p.0@, p.1@))
                                =~= d0.map_values(|p: (String, String)| (p.0@, p.1@)).push((p.0@, p.1@)));
                        },
                        None => {},
                    }
                }
            },
            Some(value) => {
                if !validate_type(value.as_str(), &f.field_type) {
                    let mut message = owned("Campo '");
                    push_str(&mut message, f.name.as_str());
                    push_str(&mut message, "' tiene tipo incorrecto. Esperado: ");
                    let tn = type_debug_name(&f.field_type);
                    push_str(&mut message, tn.as_str());
                    let v = SchemaViolation {
                        field: f.name.clone(),
                        violation_type: ViolationType::WrongType,
                        message,
                        suggestion: None,
                    };
                    result.add_violation(v);
                    assert(result.violations@.map_values(|v: SchemaViolation| violation_view(v))
                        =~= v0.map_values(|v: SchemaViolation| violation_view(v)).push(violation_view(v)));
                }
                let ghost v1 = result.violations@;
                match &f.field_type {
                    FieldType::Enum(allowed) => {
                        if !contains_str(allowed, value.as_str()) {
                            let mut message = owned("Valor '");
                            push_str(&mut message, value.as_str());
                            push_str(&mut message, "' no permitido para '");
                            push_str(&mut message, f.name.as_str());
                            push_str(&mut message, "'. Valores válidos: ");
                            let d = debug_list(allowed);
                            push_str(&mut message, d.as_str());
                            let mut sugg = owned("Usar uno de: ");
                            let joined = join(allowed, ", ");
                            push_str(&mut sugg, joined.as_str());
                            let v = SchemaViolation {
                                field: f.name.clone(),
                                violation_type: ViolationType::InvalidValue,
                                message,
                                suggestion: Some(sugg),
                            };
                            result.add_violation(v);
                            assert(result.violations@.map_values(|v: SchemaViolation| violation_view(v))
                                =~= v1.map_values(|v: SchemaViolation| violation_view(v)).push(violation_view(v)));
                        }
                    },
                    _ => {},
                }
            },
        }
        i = i + 1;
    }
    assert(schema.fields@.subrange(0, schema.fields@.len() as int) =~= schema.fields@);
    result
}

/// The suggestions of the violations that have one, in order.
pub open spec fn suggestions(vs: Seq<SchemaViolation>) -> Seq<Seq<char>>
    decreases vs.len(),
{
    if vs.len() == 0 {
        Seq::empty()
    } else {
        let r = suggestions(vs.drop_last());
        match vs.last().suggestion {
            Some(s) => r.push(s@),
            None => r,
        }
    }
}

/// The suggested fixes of the violations.
pub fn suggest_fixes(violations: &[SchemaViolation]) -> (r: Vec<String>)
    ensures
        strs(r@) == suggestions(violations@),
{
    let mut r: Vec<String> = Vec::new();
    let mut i: usize = 0;
    while i < violations.len()
        invariant
            i <= violations@.len(),
            strs(r@) == suggestions(violations@.subrange(0, i as int)),
        decreases violations@.len() - i,
    {
        proof {
            assert(violations@.subrange(0, i + 1).drop_last() =~= violations@.subrange(0, i as int));
        }
        match &violations[i].suggestion {
            Some(s) => {
                let ghost r0 = r@;
                r.push(s.clone());
                assert(strs(r@) =~= strs(r0).push(s@));
            },
            None => {},
        }
        i = i + 1;
    }
    assert(violations@.subrange(0, violations@.len() as int) =~= violations@);
    r
}

} // verus!
