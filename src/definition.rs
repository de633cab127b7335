//! Entity definitions and the creation statement built from them.
use vstd::prelude::*;
use vstd::string::StringExecFns;
use vstd::string::StrSliceExecFns;

verus! {

/// One named, typed field of an entity; the type is handed to the store verbatim.
pub struct FieldDefinition {
    pub name: String,
    pub field_type: String,
}

impl View for FieldDefinition {
    type V = (Seq<char>, Seq<char>);

    open spec fn view(&self) -> (Seq<char>, Seq<char>) {
        (self.name@, self.field_type@)
    }
}

/// A new entity: its name and its fields, in the order given.
pub struct EntityDefinition {
    pub name: String,
    pub fields: Vec<FieldDefinition>,
}

/// Why an entity definition was refused before reaching the store.
#[derive(Debug, PartialEq, Eq, Structural)]
pub enum DefinitionError {
    MissingName,
    NoFields,
    DuplicateField,
    ReservedName,
}

pub open spec fn field_views(fs: Seq<FieldDefinition>) -> Seq<(Seq<char>, Seq<char>)> {
    fs.map_values(|f: FieldDefinition| f@)
}

/// Two fields at different positions carry the same name.
pub open spec fn has_duplicate_names(fs: Seq<(Seq<char>, Seq<char>)>) -> bool {
    exists|i: int, j: int| 0 <= i < j < fs.len() && #[trigger] fs[i].0 == #[trigger] fs[j].0
}

/// The name of the fixed schema-mutation route, which no entity may take.
pub open spec fn reserved_name() -> Seq<char> {
    seq!['t', 'y', 'p', 'e', 's']
}

/// The shape checks on a definition, in the order they are made.
pub open spec fn shape_error(name: Seq<char>, fs: Seq<(Seq<char>, Seq<char>)>) -> Option<DefinitionError> {
    if name.len() == 0 {
        Some(DefinitionError::MissingName)
    } else if fs.len() == 0 {
        Some(DefinitionError::NoFields)
    } else if has_duplicate_names(fs) {
        Some(DefinitionError::DuplicateField)
    } else {
        None
    }
}

/// `name<TAB>type`
pub open spec fn field_line(f: (Seq<char>, Seq<char>)) -> Seq<char> {
    f.0 + seq!['\t'] + f.1
}

/// The field lines joined by a comma and a newline, none after the last.
pub open spec fn joined_fields(fs: Seq<(Seq<char>, Seq<char>)>) -> Seq<char>
    decreases fs.len(),
{
    if fs.len() == 0 {
        Seq::empty()
    } else if fs.len() == 1 {
        field_line(fs[0])
    } else {
        joined_fields(fs.drop_last()) + seq![',', '\n'] + field_line(fs.last())
    }
}

pub open spec fn statement_head(entity: Seq<char>) -> Seq<char> {
    "CREATE TABLE "@ + entity + seq![' ', '(', '\n']
}

/// The creation statement for an entity whose name is already lower-cased.
pub open spec fn statement_of(entity: Seq<char>, fs: Seq<(Seq<char>, Seq<char>)>) -> Seq<char> {
    statement_head(entity) + joined_fields(fs) + seq!['\n', ')']
}

/// What `str::to_lowercase` gives for a string.
pub uninterp spec fn lower_of(s: Seq<char>) -> Seq<char>;

/// Relies on str::to_lowercase: the result depends on the characters alone.
#[verifier::external_body]
fn lowercase(s: &str) -> (r: String)
    ensures
        r@ == lower_of(s@),
{
    s.to_lowercase()
}

/// Builds the creation statement text for an entity name that is already
/// lower-cased.
pub fn statement_text(entity: &str, fields: &Vec<FieldDefinition>) -> (r: String)
    ensures
        r@ == statement_of(entity@, field_views(fields@)),
{
    let mut s = String::from_str("CREATE TABLE ");
    s.append(entity);
    s.append(" (\n");
    proof {
        reveal_strlit(" (\n");
        assert(s@ =~= statement_head(entity@));
    }
    let ghost head = s@;
    let mut i: usize = 0;
    while i < fields.len()
        invariant
            i <= fields.len(),
            s@ == head + joined_fields(field_views(fields@).take(i as int)),
        decreases fields.len() - i,
    {
        let ghost before = s@;
        if i > 0 {
            s.append(",\n");
        }
        s.append(fields[i].name.as_str());
        s.append("\t");
        s.append(fields[i].field_type.as_str());
        proof {
            reveal_strlit(",\n");
            reveal_strlit("\t");
            let fv = field_views(fields@);
            assert(fv.take(i + 1).drop_last() =~= fv.take(i as int));
            assert(fv.take(i + 1).last() == fields@[i as int]@);
            if i == 0 {
                assert(joined_fields(fv.take(0)) =~= Seq::<char>::empty());
                assert(s@ =~= head + joined_fields(fv.take(1)));
            } else {
                assert(s@ =~= head + joined_fields(fv.take(i + 1)));
            }
        }
        i = i + 1;
    }
    s.append("\n)");
    proof {
        reveal_strlit("\n)");
        assert(field_views(fields@).take(fields.len() as int) =~= field_views(fields@));
        assert(s@ =~= statement_of(entity@, field_views(fields@)));
    }
    s
}

/// The whole outcome of turning a definition into a statement: the shape
/// checks, then the reserved name, then the statement over the lower-cased name.
pub open spec fn definition_outcome(
    name: Seq<char>,
    fs: Seq<(Seq<char>, Seq<char>)>,
    lowered: Seq<char>,
) -> Result<Seq<char>, DefinitionError> {
    match shape_error(name, fs) {
        Some(e) => Err(e),
        None => if lowered == reserved_name() {
            Err(DefinitionError::ReservedName)
        } else {
            Ok(statement_of(lowered, fs))
        },
    }
}

/// Finds whether two fields share a name.
pub fn find_duplicate_name(fields: &Vec<FieldDefinition>) -> (r: bool)
    ensures
        r == has_duplicate_names(field_views(fields@)),
{
    let ghost fv = field_views(fields@);
    let mut j: usize = 0;
    while j < fields.len()
        invariant
            j <= fields.len(),
            fv == field_views(fields@),
            forall|a: int, b: int| 0 <= a < b < j ==> #[trigger] fv[a].0 != #[trigger] fv[b].0,
        decreases fields.len() - j,
    {
        let mut i: usize = 0;
        while i < j
            invariant
                i <= j < fields.len(),
                fv == field_views(fields@),
                forall|a: int, b: int| 0 <= a < b < j ==> #[trigger] fv[a].0 != #[trigger] fv[b].0,
                forall|a: int| 0 <= a < i ==> #[trigger] fv[a].0 != fv[j as int].0,
            decreases j - i,
        {
            if fields[i].name == fields[j].name {
                assert(fv[i as int].0 == fv[j as int].0);
                return true;
            }
            i = i + 1;
        }
        j = j + 1;
    }
    proof {
        if has_duplicate_names(fv) {
            let (a, b) = choose|a: int, b: int| 0 <= a < b < fv.len() && #[trigger] fv[a].0 == #[trigger] fv[b].0;
            assert(fv[a].0 != fv[b].0);
        }
    }
    false
}

/// Checks the shape of a definition: a name, at least one field, and no
/// field name given twice.
pub fn check_shape(def: &EntityDefinition) -> (r: Result<(), DefinitionError>)
    ensures
        r == (match shape_error(def.name@, field_views(def.fields@)) {
            Some(e) => Err(e),
            None => Ok(()),
        }),
{
    if def.name.as_str().unicode_len() == 0 {
        Err(DefinitionError::MissingName)
    } else if def.fields.len() == 0 {
        Err(DefinitionError::NoFields)
    } else if find_duplicate_name(&def.fields) {
        Err(DefinitionError::DuplicateField)
    } else {
        Ok(())
    }
}

/// Whether a lower-cased entity name is the one reserved for the
/// schema-mutation route.
pub fn is_reserved(entity: &String) -> (r: bool)
    ensures
        r == (entity@ == reserved_name()),
{
    let reserved = String::from_str("types");
    proof {
        reveal_strlit("types");
        assert(reserved@ =~= reserved_name());
    }
    *entity == reserved
}

/// Turns a definition into the statement that creates its entity: the
/// entity name lower-cased, then one `name<TAB>type` line per field.
pub fn create_statement(def: &EntityDefinition) -> (r: Result<String, DefinitionError>)
    ensures
        r matches Ok(s) ==> definition_outcome(def.name@, field_views(def.fields@), lower_of(def.name@)) == Ok::<Seq<char>, DefinitionError>(s@),
        r matches Err(e) ==> definition_outcome(def.name@, field_views(def.fields@), lower_of(def.name@)) == Err::<Seq<char>, DefinitionError>(e),
{
    match check_shape(def) {
        Err(e) => Err(e),
        Ok(()) => {
            let lowered = lowercase(def.name.as_str());
            if is_reserved(&lowered) {
                Err(DefinitionError::ReservedName)
            } else {
                Ok(statement_text(lowered.as_str(), &def.fields))
            }
        },
    }
}

/// The diagnostic text for each refusal.
pub open spec fn error_text(e: DefinitionError) -> Seq<char> {
    match e {
        DefinitionError::MissingName => "the entity needs a name"@,
        DefinitionError::NoFields => "the entity needs at least one field"@,
        DefinitionError::DuplicateField => "a field name is given twice"@,
        DefinitionError::ReservedName => "the entity name is reserved"@,
    }
}

impl DefinitionError {
    /// The diagnostic text sent back to the client.
    pub fn message(&self) -> (r: String)
        ensures
            r@ == error_text(*self),
    {
        match self {
            DefinitionError::MissingName => String::from_str("the entity needs a name"),
            DefinitionError::NoFields => String::from_str("the entity needs at least one field"),
            DefinitionError::DuplicateField => String::from_str("a field name is given twice"),
            DefinitionError::ReservedName => String::from_str("the entity name is reserved"),
        }
    }
}

/// Where the line of field `i` starts within the joined field lines.
pub open spec fn field_offset(fs: Seq<(Seq<char>, Seq<char>)>, i: int) -> int
    decreases i,
{
    if i <= 0 {
        0
    } else {
        field_offset(fs, i - 1) + field_line(fs[i - 1]).len() + 2
    }
}

proof fn lemma_offset_prefix(fs: Seq<(Seq<char>, Seq<char>)>, k: int, i: int)
    requires
        0 <= i <= k <= fs.len(),
    ensures
        field_offset(fs.take(k), i) == field_offset(fs, i),
    decreases i,
{
    if i > 0 {
        lemma_offset_prefix(fs, k, i - 1);
        assert(fs.take(k)[i - 1] == fs[i - 1]);
    }
}

proof fn lemma_joined_len(fs: Seq<(Seq<char>, Seq<char>)>)
    requires
        fs.len() > 0,
    ensures
        joined_fields(fs).len() == field_offset(fs, fs.len() - 1) + field_line(fs.last()).len(),
    decreases fs.len(),
{
    if fs.len() > 1 {
        let p = fs.drop_last();
        lemma_joined_len(p);
        assert(p =~= fs.take(fs.len() - 1));
        lemma_offset_prefix(fs, fs.len() - 1, fs.len() - 2);
        assert(p.last() == fs[fs.len() - 2]);
    }
}

proof fn lemma_joined_layout(fs: Seq<(Seq<char>, Seq<char>)>, i: int)
    requires
        0 <= i < fs.len(),
    ensures
        ({
            let j = joined_fields(fs);
            let o = field_offset(fs, i);
            let e = o + field_line(fs[i]).len();
            &&& 0 <= o <= e <= j.len()
            &&& j.subrange(o, e) == field_line(fs[i])
            &&& i + 1 < fs.len() ==> e + 2 <= j.len() && j.subrange(e, e + 2) == seq![',', '\n']
            &&& i + 1 == fs.len() ==> e == j.len()
        }),
    decreases fs.len(),
{
    let n = fs.len();
    let j = joined_fields(fs);
    if n == 1 {
        assert(j.subrange(0, j.len() as int) =~= j);
    } else {
        let p = fs.drop_last();
        let jp = joined_fields(p);
        assert(p =~= fs.take(n - 1));
        lemma_joined_len(p);
        lemma_offset_prefix(fs, n - 1, n - 2);
        lemma_offset_prefix(fs, n - 1, i);
        assert(p.last() == fs[n - 2]);
        assert(j == jp + seq![',', '\n'] + field_line(fs.last()));
        if i == n - 1 {
            let o = field_offset(fs, i);
            assert(o == jp.len() + 2);
            assert(j.subrange(o, j.len() as int) =~= field_line(fs[i]));
        } else {
            lemma_joined_layout(p, i);
            assert(p[i] == fs[i]);
            let o = field_offset(fs, i);
            let e = o + field_line(fs[i]).len();
            assert(j.subrange(o, e) =~= jp.subrange(o, e));
            if i + 1 < n - 1 {
                assert(j.subrange(e, e + 2) =~= jp.subrange(e, e + 2));
            } else {
                assert(e == jp.len());
                assert(j.subrange(e, e + 2) =~= seq![',', '\n']);
            }
        }
    }
}

/// Every field of a statement appears exactly at its own place, in the order
/// given, as `name<TAB>type`; a comma and a newline follow every field line but
/// the last, which is followed by the closing newline and parenthesis. The
/// statement opens with `CREATE TABLE`, the entity name, and ` (` and a newline.
pub proof fn lemma_statement_lists_each_field(entity: Seq<char>, fs: Seq<(Seq<char>, Seq<char>)>, i: int)
    requires
        0 <= i < fs.len(),
    ensures
        ({
            let st = statement_of(entity, fs);
            let h = statement_head(entity).len() as int;
            let o = h + field_offset(fs, i);
            let e = o + field_line(fs[i]).len();
            &&& st.subrange(0, h) == statement_head(entity)
            &&& h <= o <= e <= st.len()
            &&& st.subrange(o, e) == field_line(fs[i])
            &&& i + 1 < fs.len() ==> e + 2 <= st.len() && st.subrange(e, e + 2) == seq![',', '\n']
            &&& i + 1 == fs.len() ==> e + 2 == st.len() && st.subrange(e, e + 2) == seq!['\n', ')']
        }),
{
    lemma_joined_layout(fs, i);
    let st = statement_of(entity, fs);
    let hd = statement_head(entity);
    let j = joined_fields(fs);
    let h = hd.len() as int;
    let o = h + field_offset(fs, i);
    let e = o + field_line(fs[i]).len();
    assert(st == hd + j + seq!['\n', ')']);
    assert(st.subrange(0, h) =~= hd);
    assert(st.subrange(o, e) =~= j.subrange(o - h, e - h));
    if i + 1 < fs.len() {
        assert(st.subrange(e, e + 2) =~= j.subrange(e - h, e - h + 2));
    } else {
        assert(st.subrange(e, e + 2) =~= seq!['\n', ')']);
    }
}

} // verus!
