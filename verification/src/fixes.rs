//! The check of a file of corrections to the database of detectable
//! applications.
use crate::json::{
    collect_field, field, field_texts, items_model, json_model, text_field, Json, JsonModel,
    JsonObject,
};
use crate::text::{decimal, decimal_text, list_has, same_text, text_trim, texts, trimmed};
use vstd::prelude::*;

verus! {

/// What is wrong, and where.
#[derive(Debug)]
pub struct ValidationError {
    pub path: String,
    pub message: String,
}

pub struct ErrorModel {
    pub path: Seq<char>,
    pub message: Seq<char>,
}

impl View for ValidationError {
    type V = ErrorModel;

    open spec fn view(&self) -> ErrorModel {
        ErrorModel { path: self.path@, message: self.message@ }
    }
}

/// What each error stands for.
pub open spec fn errors_model(errors: Seq<ValidationError>) -> Seq<ErrorModel> {
    errors.map_values(|error: ValidationError| error@)
}

impl ValidationError {
    pub fn new(path: &str, message: &str) -> (r: ValidationError)
        ensures
            r@ == (ErrorModel { path: path@, message: message@ }),
    {
        ValidationError { path: path.to_string(), message: message.to_string() }
    }
}

/// The one error of this kind.
pub open spec fn one_error(path: Seq<char>, message: Seq<char>) -> Seq<ErrorModel> {
    seq![ErrorModel { path, message }]
}

/// The path of the field `key` of what stands at `base`.
pub open spec fn field_path(base: Seq<char>, key: Seq<char>) -> Seq<char> {
    base + "."@ + key
}

/// The path of the item `index` of what stands at `base`.
pub open spec fn item_path(base: Seq<char>, index: nat) -> Seq<char> {
    base + "["@ + decimal(index) + "]"@
}

fn field_name(base: &str, key: &str) -> (r: String)
    ensures
        r@ == field_path(base@, key@),
{
    let mut out = base.to_string();
    out.append(".");
    out.append(key);
    out
}

fn item_name(base: &str, index: usize) -> (r: String)
    ensures
        r@ == item_path(base@, index as nat),
{
    let mut out = base.to_string();
    out.append("[");
    out.append(decimal_text(index as u64).as_str());
    out.append("]");
    out
}

fn add_error(errors: &mut Vec<ValidationError>, path: &str, message: &str)
    ensures
        errors_model(final(errors)@) == errors_model(old(errors)@) + one_error(path@, message@),
{
    let ghost before = errors@;
    errors.push(ValidationError::new(path, message));
    assert(errors_model(errors@) =~= errors_model(before) + one_error(path@, message@));
}

// ---------------------------------------------------------------------------
// Fields
// ---------------------------------------------------------------------------
/// The errors of a field that may be left out and must be a boolean.
pub open spec fn boolean_errors(
    base: Seq<char>,
    object: Map<Seq<char>, JsonModel>,
    key: Seq<char>,
) -> Seq<ErrorModel> {
    if object.contains_key(key) && !(object[key] is Bool) {
        one_error(field_path(base, key), "Must be a boolean"@)
    } else {
        Seq::empty()
    }
}

/// The errors of a field that may be left out and must be a text.
pub open spec fn string_errors(
    base: Seq<char>,
    object: Map<Seq<char>, JsonModel>,
    key: Seq<char>,
) -> Seq<ErrorModel> {
    if object.contains_key(key) && !(object[key] is Text) {
        one_error(field_path(base, key), "Must be a string"@)
    } else {
        Seq::empty()
    }
}

/// The errors of the items of a list of texts.
pub open spec fn text_item_errors(path: Seq<char>, items: Seq<JsonModel>) -> Seq<ErrorModel>
    decreases items.len(),
{
    if items.len() == 0 {
        Seq::empty()
    } else {
        let before = text_item_errors(path, items.drop_last());
        if items.last() is Text {
            before
        } else {
            before + one_error(item_path(path, (items.len() - 1) as nat), "Must be a string"@)
        }
    }
}

/// The errors of what must be a list of texts.
pub open spec fn string_array_errors(path: Seq<char>, value: JsonModel) -> Seq<ErrorModel> {
    match value {
        JsonModel::Array(items) => text_item_errors(path, items),
        _ => one_error(path, "Must be an array"@),
    }
}

/// Checks a field that may be left out and must be a boolean.
pub fn validate_optional_bool(
    base: &str,
    object: &JsonObject,
    key: &str,
    errors: &mut Vec<ValidationError>,
)
    ensures
        errors_model(final(errors)@) == errors_model(old(errors)@) + boolean_errors(
            base@,
            object@,
            key@,
        ),
{
    assert(errors_model(errors@) + Seq::<ErrorModel>::empty() =~= errors_model(errors@));
    if let Some(value) = object.get(key) {
        if !value.is_boolean() {
            add_error(errors, field_name(base, key).as_str(), "Must be a boolean");
        }
    }
}

/// Checks a field that may be left out and must be a text.
pub fn validate_optional_string(
    base: &str,
    object: &JsonObject,
    key: &str,
    errors: &mut Vec<ValidationError>,
)
    ensures
        errors_model(final(errors)@) == errors_model(old(errors)@) + string_errors(
            base@,
            object@,
            key@,
        ),
{
    assert(errors_model(errors@) + Seq::<ErrorModel>::empty() =~= errors_model(errors@));
    if let Some(value) = object.get(key) {
        if !value.is_text() {
            add_error(errors, field_name(base, key).as_str(), "Must be a string");
        }
    }
}

/// Checks what must be a list of texts.
pub fn validate_string_array(path: &str, value: &Json, errors: &mut Vec<ValidationError>)
    ensures
        errors_model(final(errors)@) == errors_model(old(errors)@) + string_array_errors(
            path@,
            value@,
        ),
{
    let items = match value.as_array() {
        Some(items) => items,
        None => {
            add_error(errors, path, "Must be an array");
            return;
        },
    };
    let ghost models = items_model(items@);
    let ghost start = errors_model(errors@);
    let mut i: usize = 0;
    assert(models.take(0) =~= Seq::empty());
    assert(start + Seq::<ErrorModel>::empty() =~= start);
    while i < items.len()
        invariant
            i <= items@.len(),
            models == items_model(items@),
            errors_model(errors@) == start + text_item_errors(path@, models.take(i as int)),
        decreases items@.len() - i,
    {
        assert(models.take(i + 1).drop_last() =~= models.take(i as int));
        assert(models.take(i + 1).last() == json_model(items@[i as int]));
        if !items[i].is_text() {
            let ghost found = text_item_errors(path@, models.take(i as int));
            let name = item_name(path, i);
            add_error(errors, name.as_str(), "Must be a string");
            assert(start + found + one_error(name@, "Must be a string"@) =~= start + (found
                + one_error(name@, "Must be a string"@)));
        }
        i += 1;
    }
    assert(models.take(i as int) =~= models);
}

// ---------------------------------------------------------------------------
// Executables
// ---------------------------------------------------------------------------
/// The errors of the name of an executable.
pub open spec fn name_errors(
    path: Seq<char>,
    object: Map<Seq<char>, JsonModel>,
) -> Seq<ErrorModel> {
    let at = field_path(path, "name"@);
    if !object.contains_key("name"@) {
        one_error(at, "Missing required field: name"@)
    } else {
        match object["name"@] {
            JsonModel::Text(name) => if trimmed(name).len() == 0 {
                one_error(at, "Cannot be empty"@)
            } else {
                Seq::empty()
            },
            _ => one_error(at, "Must be a string"@),
        }
    }
}

/// `os` is a platform.
pub open spec fn is_platform(os: Seq<char>) -> bool {
    os == "win32"@ || os == "linux"@ || os == "darwin"@
}

/// The errors of the platform of an executable.
pub open spec fn platform_errors(
    path: Seq<char>,
    object: Map<Seq<char>, JsonModel>,
) -> Seq<ErrorModel> {
    let at = field_path(path, "os"@);
    if !object.contains_key("os"@) {
        Seq::empty()
    } else {
        match object["os"@] {
            JsonModel::Text(os) => if is_platform(os) {
                Seq::empty()
            } else {
                one_error(at, "Must be one of: win32, linux, darwin"@)
            },
            _ => one_error(at, "Must be a string"@),
        }
    }
}

/// The errors of an executable.
pub open spec fn executable_errors(path: Seq<char>, exe: JsonModel) -> Seq<ErrorModel> {
    match exe {
        JsonModel::Object(object) => name_errors(path, object) + boolean_errors(
            path,
            object,
            "is_launcher"@,
        ) + string_errors(path, object, "arguments"@) + platform_errors(path, object),
        _ => one_error(path, "Must be an object"@),
    }
}

/// Checks an executable.
pub fn validate_fix_executable(path: &str, exe: &Json, errors: &mut Vec<ValidationError>)
    ensures
        errors_model(final(errors)@) == errors_model(old(errors)@) + executable_errors(
            path@,
            exe@,
        ),
{
    let ghost start = errors_model(errors@);
    let object = match exe.as_object() {
        Some(object) => object,
        None => {
            add_error(errors, path, "Must be an object");
            return;
        },
    };
    let name_path = field_name(path, "name");
    assert(start + Seq::<ErrorModel>::empty() =~= start);
    match object.get("name") {
        Some(Json::Text(name)) => if text_trim(name.as_str()).as_str().is_empty() {
            add_error(errors, name_path.as_str(), "Cannot be empty");
        },
        Some(_) => add_error(errors, name_path.as_str(), "Must be a string"),
        None => add_error(errors, name_path.as_str(), "Missing required field: name"),
    }
    assert(errors_model(errors@) == start + name_errors(path@, object@));
    validate_optional_bool(path, object, "is_launcher", errors);
    validate_optional_string(path, object, "arguments", errors);
    let ghost before = errors_model(errors@);
    assert(before + Seq::<ErrorModel>::empty() =~= before);
    let os_path = field_name(path, "os");
    match object.get("os") {
        Some(Json::Text(os)) => if !(same_text(os.as_str(), "win32") || same_text(
            os.as_str(),
            "linux",
        ) || same_text(os.as_str(), "darwin")) {
            add_error(errors, os_path.as_str(), "Must be one of: win32, linux, darwin");
        },
        Some(_) => add_error(errors, os_path.as_str(), "Must be a string"),
        None => {},
    }
    assert(errors_model(errors@) == before + platform_errors(path@, object@));
    assert(errors_model(errors@) =~= start + executable_errors(path@, exe@));
}

// ---------------------------------------------------------------------------
// Entries
// ---------------------------------------------------------------------------
/// The errors of the executables of an entry.
pub open spec fn executable_item_errors(base: Seq<char>, items: Seq<JsonModel>) -> Seq<ErrorModel>
    decreases items.len(),
{
    if items.len() == 0 {
        Seq::empty()
    } else {
        executable_item_errors(base, items.drop_last()) + executable_errors(
            item_path(field_path(base, "executables"@), (items.len() - 1) as nat),
            items.last(),
        )
    }
}

/// The errors of a field that may be left out and must be a list of texts.
pub open spec fn optional_array_errors(
    base: Seq<char>,
    object: Map<Seq<char>, JsonModel>,
    key: Seq<char>,
) -> Seq<ErrorModel> {
    if object.contains_key(key) {
        string_array_errors(field_path(base, key), object[key])
    } else {
        Seq::empty()
    }
}

/// The errors of the overlay methods of an entry.
pub open spec fn overlay_errors(
    base: Seq<char>,
    object: Map<Seq<char>, JsonModel>,
) -> Seq<ErrorModel> {
    let key = "overlay_methods"@;
    if object.contains_key(key) && !(object[key] is Null) && !(object[key] is Number) {
        one_error(field_path(base, key), "Must be a number or null"@)
    } else {
        Seq::empty()
    }
}

/// The errors of the fields of an entry besides its id and its executables.
pub open spec fn detail_errors(
    base: Seq<char>,
    object: Map<Seq<char>, JsonModel>,
) -> Seq<ErrorModel> {
    string_errors(base, object, "name"@) + boolean_errors(base, object, "hook"@)
        + boolean_errors(base, object, "overlay"@) + boolean_errors(
        base,
        object,
        "overlay_warn"@,
    ) + boolean_errors(base, object, "overlay_compatibility_hook"@) + string_errors(
        base,
        object,
        "icon_hash"@,
    ) + optional_array_errors(base, object, "aliases"@) + optional_array_errors(
        base,
        object,
        "themes"@,
    ) + overlay_errors(base, object)
}

/// The path of the entry `index`.
pub open spec fn entry_path(index: nat) -> Seq<char> {
    item_path(""@, index)
}

/// The errors of the entry `index`.
#[verifier::opaque]
pub open spec fn entry_errors(index: nat, entry: JsonModel) -> Seq<ErrorModel> {
    let base = entry_path(index);
    match entry {
        JsonModel::Object(object) => if !object.contains_key("id"@) {
            one_error(base, "Missing required field: id"@)
        } else if !(object["id"@] is Text) {
            one_error(field_path(base, "id"@), "Must be a string"@)
        } else if !object.contains_key("executables"@) {
            detail_errors(base, object)
        } else {
            match object["executables"@] {
                JsonModel::Array(items) => executable_item_errors(base, items) + detail_errors(
                    base,
                    object,
                ),
                _ => one_error(field_path(base, "executables"@), "Must be an array"@),
            }
        },
        _ => one_error(base, "Entry must be an object"@),
    }
}

/// What is said of the entry `index` while no error has been found.
pub open spec fn entry_notices(
    index: nat,
    entry: JsonModel,
    ids: Set<Seq<char>>,
) -> Seq<Seq<char>> {
    let id = text_field(entry, "id"@)->0;
    let head = "Entry "@ + decimal(index);
    if ids.contains(id) {
        seq![head + ": Patches existing game (ID: "@ + id + ")"@]
    } else if entry->Object_0.contains_key("name"@) {
        seq![head + ": Adds new game (ID: "@ + id + ")"@]
    } else {
        seq![
            head + ": Adds new game (ID: "@ + id + ")"@,
            "Warning: New game without 'name' field will use \"Custom Game\""@,
        ]
    }
}

proof fn lemma_append(
    start: Seq<ErrorModel>,
    found: Seq<ErrorModel>,
    more: Seq<ErrorModel>,
)
    ensures
        start + found + more == start + (found + more),
{
    assert(start + found + more =~= start + (found + more));
}

fn validate_optional_array(
    base: &str,
    object: &JsonObject,
    key: &str,
    errors: &mut Vec<ValidationError>,
)
    ensures
        errors_model(final(errors)@) == errors_model(old(errors)@) + optional_array_errors(
            base@,
            object@,
            key@,
        ),
{
    assert(errors_model(errors@) + Seq::<ErrorModel>::empty() =~= errors_model(errors@));
    if let Some(value) = object.get(key) {
        validate_string_array(field_name(base, key).as_str(), value, errors);
    }
}

fn validate_overlay_methods(base: &str, object: &JsonObject, errors: &mut Vec<ValidationError>)
    ensures
        errors_model(final(errors)@) == errors_model(old(errors)@) + overlay_errors(
            base@,
            object@,
        ),
{
    assert(errors_model(errors@) + Seq::<ErrorModel>::empty() =~= errors_model(errors@));
    if let Some(methods) = object.get("overlay_methods") {
        if !methods.is_null() && !methods.is_number() {
            add_error(
                errors,
                field_name(base, "overlay_methods").as_str(),
                "Must be a number or null",
            );
        }
    }
}

fn validate_details(base: &str, object: &JsonObject, errors: &mut Vec<ValidationError>)
    ensures
        errors_model(final(errors)@) == errors_model(old(errors)@) + detail_errors(
            base@,
            object@,
        ),
{
    let ghost start = errors_model(errors@);
    validate_optional_string(base, object, "name", errors);
    validate_optional_bool(base, object, "hook", errors);
    validate_optional_bool(base, object, "overlay", errors);
    validate_optional_bool(base, object, "overlay_warn", errors);
    validate_optional_bool(base, object, "overlay_compatibility_hook", errors);
    validate_optional_string(base, object, "icon_hash", errors);
    validate_optional_array(base, object, "aliases", errors);
    validate_optional_array(base, object, "themes", errors);
    validate_overlay_methods(base, object, errors);
    proof {
        let found = string_errors(base@, object@, "name"@);
        let more = boolean_errors(base@, object@, "hook"@);
        lemma_append(start, found, more);
        let found = found + more;
        let more = boolean_errors(base@, object@, "overlay"@);
        lemma_append(start, found, more);
        let found = found + more;
        let more = boolean_errors(base@, object@, "overlay_warn"@);
        lemma_append(start, found, more);
        let found = found + more;
        let more = boolean_errors(base@, object@, "overlay_compatibility_hook"@);
        lemma_append(start, found, more);
        let found = found + more;
        let more = string_errors(base@, object@, "icon_hash"@);
        lemma_append(start, found, more);
        let found = found + more;
        let more = optional_array_errors(base@, object@, "aliases"@);
        lemma_append(start, found, more);
        let found = found + more;
        let more = optional_array_errors(base@, object@, "themes"@);
        lemma_append(start, found, more);
        let found = found + more;
        let more = overlay_errors(base@, object@);
        lemma_append(start, found, more);
        let found = found + more;
    }
}

fn validate_executables(base: &str, items: &Vec<Json>, errors: &mut Vec<ValidationError>)
    ensures
        errors_model(final(errors)@) == errors_model(old(errors)@) + executable_item_errors(
            base@,
            items_model(items@),
        ),
{
    let ghost start = errors_model(errors@);
    let ghost models = items_model(items@);
    let at = field_name(base, "executables");
    let mut i: usize = 0;
    assert(models.take(0) =~= Seq::empty());
    assert(start + Seq::<ErrorModel>::empty() =~= start);
    while i < items.len()
        invariant
            i <= items@.len(),
            models == items_model(items@),
            at@ == field_path(base@, "executables"@),
            errors_model(errors@) == start + executable_item_errors(
                base@,
                models.take(i as int),
            ),
        decreases items@.len() - i,
    {
        assert(models.take(i + 1).drop_last() =~= models.take(i as int));
        assert(models.take(i + 1).last() == json_model(items@[i as int]));
        let ghost found = executable_item_errors(base@, models.take(i as int));
        let name = item_name(at.as_str(), i);
        validate_fix_executable(name.as_str(), &items[i], errors);
        assert(start + found + executable_errors(name@, json_model(items@[i as int])) =~= start + (
        found + executable_errors(name@, json_model(items@[i as int]))));
        i += 1;
    }
    assert(models.take(i as int) =~= models);
}

fn notices_of(index: usize, id: &str, known: bool, named: bool) -> (r: Vec<String>)
    ensures
        texts(r@) == if known {
            seq![
                "Entry "@ + decimal(index as nat) + ": Patches existing game (ID: "@ + id@ + ")"@,
            ]
        } else if named {
            seq!["Entry "@ + decimal(index as nat) + ": Adds new game (ID: "@ + id@ + ")"@]
        } else {
            seq![
                "Entry "@ + decimal(index as nat) + ": Adds new game (ID: "@ + id@ + ")"@,
                "Warning: New game without 'name' field will use \"Custom Game\""@,
            ]
        },
{
    let mut line = "Entry ".to_string();
    line.append(decimal_text(index as u64).as_str());
    if known {
        line.append(": Patches existing game (ID: ");
    } else {
        line.append(": Adds new game (ID: ");
    }
    line.append(id);
    line.append(")");
    let ghost text = line@;
    let mut lines: Vec<String> = Vec::new();
    lines.push(line);
    if !known && !named {
        lines.push(
            "Warning: New game without 'name' field will use \"Custom Game\"".to_string(),
        );
        assert(texts(lines@) =~= seq![
            text,
            "Warning: New game without 'name' field will use \"Custom Game\""@,
        ]);
    } else {
        assert(texts(lines@) =~= seq![text]);
    }
    lines
}

/// Checks the entry `index`, and returns what is to be said of it: nothing
/// once there are errors, its own or earlier ones.
pub fn validate_fix_entry(
    index: usize,
    entry: &Json,
    detectable_ids: &Vec<String>,
    errors: &mut Vec<ValidationError>,
) -> (r: Vec<String>)
    ensures
        errors_model(final(errors)@) == errors_model(old(errors)@) + entry_errors(
            index as nat,
            entry@,
        ),
        texts(r@) == if final(errors)@.len() == 0 {
            entry_notices(index as nat, entry@, texts(detectable_ids@).to_set())
        } else {
            Seq::empty()
        },
{
    proof {
        reveal(entry_errors);
    }
    let ghost start = errors_model(errors@);
    let nothing: Vec<String> = Vec::new();
    assert(texts(nothing@) =~= Seq::empty());
    let base = item_name("", index);
    let object = match entry.as_object() {
        Some(object) => object,
        None => {
            add_error(errors, base.as_str(), "Entry must be an object");
            assert(errors_model(errors@).len() > 0);
            return nothing;
        },
    };
    let id = match object.get("id") {
        Some(Json::Text(id)) => id,
        Some(_) => {
            add_error(errors, field_name(base.as_str(), "id").as_str(), "Must be a string");
            assert(errors_model(errors@).len() > 0);
            return nothing;
        },
        None => {
            add_error(errors, base.as_str(), "Missing required field: id");
            assert(errors_model(errors@).len() > 0);
            return nothing;
        },
    };
    match object.get("executables") {
        Some(Json::Array(items)) => {
            validate_executables(base.as_str(), items, errors);
            let ghost found = executable_item_errors(base@, items_model(items@));
            validate_details(base.as_str(), object, errors);
            assert(errors_model(errors@) =~= start + (found + detail_errors(base@, object@)));
        },
        Some(_) => {
            add_error(
                errors,
                field_name(base.as_str(), "executables").as_str(),
                "Must be an array",
            );
            assert(errors_model(errors@).len() > 0);
            return nothing;
        },
        None => {
            validate_details(base.as_str(), object, errors);
        },
    }
    if errors.len() > 0 {
        return nothing;
    }
    let known = list_has(detectable_ids, id.as_str());
    let named = object.contains_key("name");
    notices_of(index, id.as_str(), known, named)
}

// ---------------------------------------------------------------------------
// The file
// ---------------------------------------------------------------------------
/// What the check of a file has found, and what is to be said of its entries.
#[derive(Debug)]
pub struct FixesReport {
    pub errors: Vec<ValidationError>,
    pub notices: Vec<String>,
}

/// The errors of the entries of a file.
pub open spec fn all_errors(entries: Seq<JsonModel>) -> Seq<ErrorModel>
    decreases entries.len(),
{
    if entries.len() == 0 {
        Seq::empty()
    } else {
        all_errors(entries.drop_last()) + entry_errors(
            (entries.len() - 1) as nat,
            entries.last(),
        )
    }
}

/// What is said of the entries of a file, up to the first one with errors.
pub open spec fn all_notices(entries: Seq<JsonModel>, ids: Set<Seq<char>>) -> Seq<Seq<char>>
    decreases entries.len(),
{
    if entries.len() == 0 {
        Seq::empty()
    } else {
        let before = all_notices(entries.drop_last(), ids);
        if all_errors(entries).len() == 0 {
            before + entry_notices((entries.len() - 1) as nat, entries.last(), ids)
        } else {
            before
        }
    }
}

/// The errors of a file.
pub open spec fn file_errors(fixes: JsonModel) -> Seq<ErrorModel> {
    match fixes {
        JsonModel::Array(entries) => all_errors(entries),
        _ => one_error("detectable_fixes.json"@, "Root must be an array"@),
    }
}

/// `report` is that on the corrections `fixes` to the database `db`.
pub open spec fn is_report_on(
    report: FixesReport,
    fixes: JsonModel,
    db: Seq<JsonModel>,
) -> bool {
    &&& errors_model(report.errors@) == file_errors(fixes)
    &&& texts(report.notices@) == match fixes {
        JsonModel::Array(entries) => all_notices(entries, field_texts(db, "id"@).to_set()),
        _ => Seq::empty(),
    }
}

/// Checks a file of corrections to the database `db`.
pub fn validate_fixes(fixes: &Json, db: &Vec<Json>) -> (r: FixesReport)
    ensures
        is_report_on(r, fixes@, items_model(db@)),
{
    let mut errors: Vec<ValidationError> = Vec::new();
    let mut notices: Vec<String> = Vec::new();
    assert(errors_model(errors@) =~= Seq::empty());
    assert(texts(notices@) =~= Seq::empty());
    let entries = match fixes.as_array() {
        Some(entries) => entries,
        None => {
            add_error(&mut errors, "detectable_fixes.json", "Root must be an array");
            assert(errors_model(errors@) =~= file_errors(fixes@));
            return FixesReport { errors, notices };
        },
    };
    let ids = collect_field(db, "id");
    let ghost known = texts(ids@).to_set();
    let ghost models = items_model(entries@);
    let mut i: usize = 0;
    assert(models.take(0) =~= Seq::empty());
    while i < entries.len()
        invariant
            i <= entries@.len(),
            models == items_model(entries@),
            known == texts(ids@).to_set(),
            errors_model(errors@) == all_errors(models.take(i as int)),
            texts(notices@) == all_notices(models.take(i as int), known),
        decreases entries@.len() - i,
    {
        assert(models.take(i + 1).drop_last() =~= models.take(i as int));
        assert(models.take(i + 1).last() == json_model(entries@[i as int]));
        let ghost before = notices@;
        let mut lines = validate_fix_entry(i, &entries[i], &ids, &mut errors);
        let ghost added = lines@;
        assert(errors_model(errors@).len() == errors@.len());
        notices.append(&mut lines);
        assert(texts(notices@) =~= texts(before) + texts(added));
        assert(texts(before) + Seq::<Seq<char>>::empty() =~= texts(before));
        i += 1;
    }
    assert(models.take(i as int) =~= models);
    FixesReport { errors, notices }
}

/// The lines in which errors are reported.
pub open spec fn error_lines(errors: Seq<ErrorModel>) -> Seq<Seq<char>> {
    seq!["Validation failed with errors:"@] + errors.map_values(
        |error: ErrorModel| "  "@ + error.path + ": "@ + error.message,
    )
}

/// The lines in which errors are reported.
pub fn validation_error_lines(errors: &Vec<ValidationError>) -> (r: Vec<String>)
    ensures
        texts(r@) == error_lines(errors_model(errors@)),
{
    let ghost lines = error_lines(errors_model(errors@));
    let mut out: Vec<String> = Vec::new();
    out.push("Validation failed with errors:".to_string());
    let mut i: usize = 0;
    while i < errors.len()
        invariant
            i <= errors@.len(),
            lines == error_lines(errors_model(errors@)),
            out@.len() == i + 1,
            forall|j: int| 0 <= j <= i ==> (#[trigger] out@[j])@ == lines[j],
        decreases errors@.len() - i,
    {
        let mut line = "  ".to_string();
        line.append(errors[i].path.as_str());
        line.append(": ");
        line.append(errors[i].message.as_str());
        assert(lines[i + 1] == line@);
        out.push(line);
        i += 1;
    }
    assert(texts(out@) =~= lines);
    out
}

// ---------------------------------------------------------------------------
// Laws
// ---------------------------------------------------------------------------
/// A file passes if and only if each of its entries does.
pub proof fn file_passes_by_entries(entries: Seq<JsonModel>)
    ensures
        all_errors(entries).len() == 0 <==> forall|i: int|
            0 <= i < entries.len() ==> entry_errors(i as nat, #[trigger] entries[i]).len() == 0,
    decreases entries.len(),
{
    if entries.len() > 0 {
        let rest = entries.drop_last();
        file_passes_by_entries(rest);
        assert(forall|i: int| 0 <= i < rest.len() ==> rest[i] == entries[i]);
        assert(all_errors(entries).len() == all_errors(rest).len() + entry_errors(
            (entries.len() - 1) as nat,
            entries.last(),
        ).len());
        if all_errors(entries).len() == 0 {
            assert forall|i: int| 0 <= i < entries.len() implies entry_errors(
                i as nat,
                #[trigger] entries[i],
            ).len() == 0 by {
                if i < rest.len() {
                    assert(rest[i] == entries[i]);
                }
            }
        }
    }
}

/// `exe` is an executable that detection can use.
pub open spec fn is_usable(exe: JsonModel) -> bool {
    &&& text_field(exe, "name"@) is Some
    &&& trimmed(text_field(exe, "name"@)->0).len() > 0
    &&& field(exe, "os"@) is Some ==> text_field(exe, "os"@) is Some && is_platform(
        text_field(exe, "os"@)->0,
    )
}

/// An entry that passes has an id, and each of its executables has a name and,
/// where it names a platform, a known one.
pub proof fn passed_entries_are_usable(index: nat, entry: JsonModel)
    requires
        entry_errors(index, entry).len() == 0,
    ensures
        text_field(entry, "id"@) is Some,
        field(entry, "executables"@) is Some ==> field(entry, "executables"@)->0 is Array,
        field(entry, "executables"@) matches Some(JsonModel::Array(items)) ==> forall|i: int|
            0 <= i < items.len() ==> is_usable(#[trigger] items[i]),
{
    reveal(entry_errors);
    if let Some(JsonModel::Array(items)) = field(entry, "executables"@) {
        assert(entry_errors(index, entry).len() == executable_item_errors(
            entry_path(index),
            items,
        ).len() + detail_errors(entry_path(index), entry->Object_0).len());
        lemma_usable_items(entry_path(index), items);
    }
}

proof fn lemma_usable_items(base: Seq<char>, items: Seq<JsonModel>)
    requires
        executable_item_errors(base, items).len() == 0,
    ensures
        forall|i: int| 0 <= i < items.len() ==> is_usable(#[trigger] items[i]),
    decreases items.len(),
{
    if items.len() > 0 {
        let rest = items.drop_last();
        let path = item_path(field_path(base, "executables"@), (items.len() - 1) as nat);
        assert(executable_item_errors(base, items).len() == executable_item_errors(
            base,
            rest,
        ).len() + executable_errors(path, items.last()).len());
        lemma_usable_items(base, rest);
        if let JsonModel::Object(object) = items.last() {
            assert(executable_errors(path, items.last()).len() == name_errors(path, object).len()
                + boolean_errors(path, object, "is_launcher"@).len() + string_errors(
                path,
                object,
                "arguments"@,
            ).len() + platform_errors(path, object).len());
        }
        assert(is_usable(items.last()));
        assert forall|i: int| 0 <= i < items.len() implies is_usable(#[trigger] items[i]) by {
            if i < rest.len() {
                assert(rest[i] == items[i]);
            }
        }
    }
}

// ---------------------------------------------------------------------------
// Laws of what passes
// ---------------------------------------------------------------------------
/// The field `key`, where there is one, is a boolean.
pub open spec fn may_be_boolean(entry: JsonModel, key: Seq<char>) -> bool {
    field(entry, key) is None || field(entry, key)->0 is Bool
}

/// The field `key`, where there is one, is a text.
pub open spec fn may_be_text(entry: JsonModel, key: Seq<char>) -> bool {
    field(entry, key) is None || field(entry, key)->0 is Text
}

/// The field `key`, where there is one, is a list of texts.
pub open spec fn may_be_texts(entry: JsonModel, key: Seq<char>) -> bool {
    field(entry, key) is None || (field(entry, key)->0 is Array && forall|i: int|
        0 <= i < field(entry, key)->0->Array_0.len() ==> (
        #[trigger] field(entry, key)->0->Array_0[i]) is Text)
}

/// An executable as it may stand in an entry: it has a name that is not blank,
/// and what else it has is of its kind.
pub open spec fn is_valid_executable(exe: JsonModel) -> bool {
    &&& exe is Object
    &&& field(exe, "name"@) is Some && field(exe, "name"@)->0 is Text
    &&& trimmed(field(exe, "name"@)->0->Text_0).len() > 0
    &&& may_be_boolean(exe, "is_launcher"@)
    &&& may_be_text(exe, "arguments"@)
    &&& field(exe, "os"@) is None || field(exe, "os"@) == Some(JsonModel::Text("win32"@)) || field(
        exe,
        "os"@,
    ) == Some(JsonModel::Text("linux"@)) || field(exe, "os"@) == Some(
        JsonModel::Text("darwin"@),
    )
}

/// An entry as it may stand in a file of corrections: it has an id that is a
/// text, and what else it has is of its kind.
pub open spec fn is_valid_entry(entry: JsonModel) -> bool {
    &&& entry is Object
    &&& field(entry, "id"@) is Some && field(entry, "id"@)->0 is Text
    &&& field(entry, "executables"@) is None || (field(entry, "executables"@)->0 is Array
        && forall|i: int|
        0 <= i < field(entry, "executables"@)->0->Array_0.len() ==> is_valid_executable(
            #[trigger] field(entry, "executables"@)->0->Array_0[i],
        ))
    &&& may_be_text(entry, "name"@)
    &&& may_be_boolean(entry, "hook"@)
    &&& may_be_boolean(entry, "overlay"@)
    &&& may_be_boolean(entry, "overlay_warn"@)
    &&& may_be_boolean(entry, "overlay_compatibility_hook"@)
    &&& may_be_text(entry, "icon_hash"@)
    &&& may_be_texts(entry, "aliases"@)
    &&& may_be_texts(entry, "themes"@)
    &&& field(entry, "overlay_methods"@) is None || field(entry, "overlay_methods"@)->0 is Null
        || field(entry, "overlay_methods"@)->0 is Number
}

proof fn lemma_text_items(path: Seq<char>, items: Seq<JsonModel>)
    ensures
        text_item_errors(path, items).len() == 0 <==> forall|i: int|
            0 <= i < items.len() ==> (#[trigger] items[i]) is Text,
    decreases items.len(),
{
    if items.len() > 0 {
        let rest = items.drop_last();
        lemma_text_items(path, rest);
        assert(items.last() == items[items.len() - 1]);
        assert(forall|i: int| 0 <= i < rest.len() ==> rest[i] == items[i]);
        if text_item_errors(path, items).len() == 0 {
            assert forall|i: int| 0 <= i < items.len() implies (#[trigger] items[i]) is Text by {
                if i < rest.len() {
                    assert(rest[i] is Text);
                }
            }
        }
    }
}

proof fn lemma_executable_passes(path: Seq<char>, exe: JsonModel)
    ensures
        executable_errors(path, exe).len() == 0 <==> is_valid_executable(exe),
{
    if let JsonModel::Object(object) = exe {
        assert(executable_errors(path, exe).len() == name_errors(path, object).len()
            + boolean_errors(path, object, "is_launcher"@).len() + string_errors(
            path,
            object,
            "arguments"@,
        ).len() + platform_errors(path, object).len());
    }
}

proof fn lemma_executables_pass(base: Seq<char>, items: Seq<JsonModel>)
    ensures
        executable_item_errors(base, items).len() == 0 <==> forall|i: int|
            0 <= i < items.len() ==> is_valid_executable(#[trigger] items[i]),
    decreases items.len(),
{
    if items.len() > 0 {
        let rest = items.drop_last();
        let at = item_path(field_path(base, "executables"@), (items.len() - 1) as nat);
        lemma_executables_pass(base, rest);
        lemma_executable_passes(at, items.last());
        assert(executable_item_errors(base, items).len() == executable_item_errors(
            base,
            rest,
        ).len() + executable_errors(at, items.last()).len());
        assert(items.last() == items[items.len() - 1]);
        assert(forall|i: int| 0 <= i < rest.len() ==> rest[i] == items[i]);
        if executable_item_errors(base, items).len() == 0 {
            assert forall|i: int| 0 <= i < items.len() implies is_valid_executable(
                #[trigger] items[i],
            ) by {
                if i < rest.len() {
                    assert(is_valid_executable(rest[i]));
                }
            }
        }
    }
}

proof fn lemma_details_pass(base: Seq<char>, object: Map<Seq<char>, JsonModel>)
    ensures
        ({
            let entry = JsonModel::Object(object);
            detail_errors(base, object).len() == 0 <==> {
                &&& may_be_text(entry, "name"@)
                &&& may_be_boolean(entry, "hook"@)
                &&& may_be_boolean(entry, "overlay"@)
                &&& may_be_boolean(entry, "overlay_warn"@)
                &&& may_be_boolean(entry, "overlay_compatibility_hook"@)
                &&& may_be_text(entry, "icon_hash"@)
                &&& may_be_texts(entry, "aliases"@)
                &&& may_be_texts(entry, "themes"@)
                &&& field(entry, "overlay_methods"@) is None || field(
                    entry,
                    "overlay_methods"@,
                )->0 is Null || field(entry, "overlay_methods"@)->0 is Number
            }
        }),
{
    let entry = JsonModel::Object(object);
    assert(detail_errors(base, object).len() == string_errors(base, object, "name"@).len()
        + boolean_errors(base, object, "hook"@).len() + boolean_errors(
        base,
        object,
        "overlay"@,
    ).len() + boolean_errors(base, object, "overlay_warn"@).len() + boolean_errors(
        base,
        object,
        "overlay_compatibility_hook"@,
    ).len() + string_errors(base, object, "icon_hash"@).len() + optional_array_errors(
        base,
        object,
        "aliases"@,
    ).len() + optional_array_errors(base, object, "themes"@).len() + overlay_errors(
        base,
        object,
    ).len());
    lemma_array_passes(base, object, "aliases"@);
    lemma_array_passes(base, object, "themes"@);
}

proof fn lemma_array_passes(base: Seq<char>, object: Map<Seq<char>, JsonModel>, key: Seq<char>)
    ensures
        optional_array_errors(base, object, key).len() == 0 <==> may_be_texts(
            JsonModel::Object(object),
            key,
        ),
{
    if object.contains_key(key) {
        if let JsonModel::Array(items) = object[key] {
            lemma_text_items(field_path(base, key), items);
        }
    }
}

/// An entry passes if and only if it has an id and everything in it is of its
/// kind.
pub proof fn valid_entries_pass(index: nat, entry: JsonModel)
    ensures
        entry_errors(index, entry).len() == 0 <==> is_valid_entry(entry),
{
    reveal(entry_errors);
    let base = entry_path(index);
    if let JsonModel::Object(object) = entry {
        lemma_details_pass(base, object);
        if object.contains_key("executables"@) {
            if let JsonModel::Array(items) = object["executables"@] {
                lemma_executables_pass(base, items);
                assert((executable_item_errors(base, items) + detail_errors(base, object)).len()
                    == executable_item_errors(base, items).len() + detail_errors(
                    base,
                    object,
                ).len());
            }
        }
    }
}

/// A file passes if and only if it is a list of valid entries.
pub proof fn valid_files_pass(fixes: JsonModel)
    ensures
        file_errors(fixes).len() == 0 <==> fixes is Array && forall|i: int|
            0 <= i < fixes->Array_0.len() ==> is_valid_entry(#[trigger] fixes->Array_0[i]),
{
    if let JsonModel::Array(entries) = fixes {
        file_passes_by_entries(entries);
        assert forall|i: int| 0 <= i < entries.len() implies (entry_errors(
            i as nat,
            #[trigger] entries[i],
        ).len() == 0 <==> is_valid_entry(entries[i])) by {
            valid_entries_pass(i as nat, entries[i]);
        }
    }
}

// ---------------------------------------------------------------------------
// Laws of what is reported
// ---------------------------------------------------------------------------
/// `errors` have one at `path` with this message.
pub open spec fn has_error(
    errors: Seq<ErrorModel>,
    path: Seq<char>,
    message: Seq<char>,
) -> bool {
    errors.contains(ErrorModel { path, message })
}

/// The place of the entry `index` in a file.
pub open spec fn place_of(index: nat) -> Seq<char> {
    seq!['['] + decimal(index) + seq![']']
}

proof fn lemma_place(index: nat)
    ensures
        entry_path(index) == place_of(index),
{
    reveal_strlit("");
    reveal_strlit("[");
    reveal_strlit("]");
    assert("["@ =~= seq!['[']);
    assert("]"@ =~= seq![']']);
    assert(entry_path(index) =~= place_of(index));
}

proof fn lemma_has(a: Seq<ErrorModel>, b: Seq<ErrorModel>, path: Seq<char>, message: Seq<char>)
    ensures
        has_error(a + b, path, message) <==> has_error(a, path, message) || has_error(
            b,
            path,
            message,
        ),
{
    let error = ErrorModel { path, message };
    if a.contains(error) {
        let k = choose|k: int| 0 <= k < a.len() && a[k] == error;
        assert((a + b)[k] == error);
    }
    if b.contains(error) {
        let k = choose|k: int| 0 <= k < b.len() && b[k] == error;
        assert((a + b)[a.len() + k] == error);
    }
    if (a + b).contains(error) {
        let k = choose|k: int| 0 <= k < (a + b).len() && (a + b)[k] == error;
        if k < a.len() {
            assert(a[k] == error);
        } else {
            assert(b[k - a.len()] == error);
        }
    }
}

proof fn lemma_one_error(path: Seq<char>, message: Seq<char>)
    ensures
        has_error(one_error(path, message), path, message),
{
    assert(one_error(path, message)[0] == ErrorModel { path, message });
}

/// An entry that is no object, has no id, or whose id or executables are of the
/// wrong kind has this one error, at its place.
pub proof fn broken_entries_have_one_error(index: nat, entry: JsonModel)
    ensures
        ({
            let errors = entry_errors(index, entry);
            let id = field(entry, "id"@);
            let executables = field(entry, "executables"@);
            &&& !(entry is Object) ==> errors.len() == 1 && has_error(
                errors,
                place_of(index),
                "Entry must be an object"@,
            )
            &&& entry is Object && id is None ==> errors.len() == 1 && has_error(
                errors,
                place_of(index),
                "Missing required field: id"@,
            )
            &&& entry is Object && id is Some && !(id->0 is Text) ==> errors.len() == 1
                && has_error(errors, place_of(index) + "."@ + "id"@, "Must be a string"@)
            &&& entry is Object && id is Some && id->0 is Text && executables is Some
                && !(executables->0 is Array) ==> errors.len() == 1 && has_error(
                errors,
                place_of(index) + "."@ + "executables"@,
                "Must be an array"@,
            )
        }),
{
    reveal(entry_errors);
    lemma_place(index);
    let base = place_of(index);
    lemma_one_error(base, "Entry must be an object"@);
    lemma_one_error(base, "Missing required field: id"@);
    lemma_one_error(field_path(base, "id"@), "Must be a string"@);
    lemma_one_error(field_path(base, "executables"@), "Must be an array"@);
}

/// The entry is an object with a text for its id, and its executables, where it
/// has them, are a list.
pub open spec fn is_sound(entry: JsonModel) -> bool {
    &&& entry is Object
    &&& field(entry, "id"@) is Some && field(entry, "id"@)->0 is Text
    &&& field(entry, "executables"@) is None || field(entry, "executables"@)->0 is Array
}

proof fn lemma_details_are_errors(
    index: nat,
    entry: JsonModel,
    path: Seq<char>,
    message: Seq<char>,
)
    requires
        is_sound(entry),
        has_error(detail_errors(place_of(index), entry->Object_0), path, message),
    ensures
        has_error(entry_errors(index, entry), path, message),
{
    reveal(entry_errors);
    lemma_place(index);
    if let Some(JsonModel::Array(items)) = field(entry, "executables"@) {
        lemma_has(
            executable_item_errors(place_of(index), items),
            detail_errors(place_of(index), entry->Object_0),
            path,
            message,
        );
    }
}

proof fn lemma_detail_parts(
    base: Seq<char>,
    object: Map<Seq<char>, JsonModel>,
    path: Seq<char>,
    message: Seq<char>,
)
    ensures
        has_error(detail_errors(base, object), path, message) <==> {
            ||| has_error(string_errors(base, object, "name"@), path, message)
            ||| has_error(boolean_errors(base, object, "hook"@), path, message)
            ||| has_error(boolean_errors(base, object, "overlay"@), path, message)
            ||| has_error(boolean_errors(base, object, "overlay_warn"@), path, message)
            ||| has_error(
                boolean_errors(base, object, "overlay_compatibility_hook"@),
                path,
                message,
            )
            ||| has_error(string_errors(base, object, "icon_hash"@), path, message)
            ||| has_error(optional_array_errors(base, object, "aliases"@), path, message)
            ||| has_error(optional_array_errors(base, object, "themes"@), path, message)
            ||| has_error(overlay_errors(base, object), path, message)
        },
{
    let e0 = string_errors(base, object, "name"@);
    let e1 = boolean_errors(base, object, "hook"@);
    let e2 = boolean_errors(base, object, "overlay"@);
    let e3 = boolean_errors(base, object, "overlay_warn"@);
    let e4 = boolean_errors(base, object, "overlay_compatibility_hook"@);
    let e5 = string_errors(base, object, "icon_hash"@);
    let e6 = optional_array_errors(base, object, "aliases"@);
    let e7 = optional_array_errors(base, object, "themes"@);
    let e8 = overlay_errors(base, object);
    lemma_has(e0, e1, path, message);
    lemma_has(e0 + e1, e2, path, message);
    lemma_has(e0 + e1 + e2, e3, path, message);
    lemma_has(e0 + e1 + e2 + e3, e4, path, message);
    lemma_has(e0 + e1 + e2 + e3 + e4, e5, path, message);
    lemma_has(e0 + e1 + e2 + e3 + e4 + e5, e6, path, message);
    lemma_has(e0 + e1 + e2 + e3 + e4 + e5 + e6, e7, path, message);
    lemma_has(e0 + e1 + e2 + e3 + e4 + e5 + e6 + e7, e8, path, message);
}

/// A field of an entry that is of the wrong kind is reported at its place, with
/// the kind that it must be of.
pub proof fn wrong_kinds_are_reported(index: nat, entry: JsonModel, key: Seq<char>)
    requires
        is_sound(entry),
        field(entry, key) is Some,
    ensures
        ({
            let errors = entry_errors(index, entry);
            let at = place_of(index) + "."@ + key;
            let value = field(entry, key)->0;
            &&& (key == "hook"@ || key == "overlay"@ || key == "overlay_warn"@ || key
                == "overlay_compatibility_hook"@) && !(value is Bool) ==> has_error(
                errors,
                at,
                "Must be a boolean"@,
            )
            &&& (key == "name"@ || key == "icon_hash"@) && !(value is Text) ==> has_error(
                errors,
                at,
                "Must be a string"@,
            )
            &&& (key == "aliases"@ || key == "themes"@) && !(value is Array) ==> has_error(
                errors,
                at,
                "Must be an array"@,
            )
            &&& key == "overlay_methods"@ && !(value is Null) && !(value is Number) ==> has_error(
                errors,
                at,
                "Must be a number or null"@,
            )
        }),
{
    let object = entry->Object_0;
    let base = place_of(index);
    let at = base + "."@ + key;
    let value = object[key];
    lemma_one_error(at, "Must be a boolean"@);
    lemma_one_error(at, "Must be a string"@);
    lemma_one_error(at, "Must be an array"@);
    lemma_one_error(at, "Must be a number or null"@);
    lemma_detail_parts(base, object, at, "Must be a boolean"@);
    lemma_detail_parts(base, object, at, "Must be a string"@);
    lemma_detail_parts(base, object, at, "Must be an array"@);
    lemma_detail_parts(base, object, at, "Must be a number or null"@);
    if has_error(detail_errors(base, object), at, "Must be a boolean"@) {
        lemma_details_are_errors(index, entry, at, "Must be a boolean"@);
    }
    if has_error(detail_errors(base, object), at, "Must be a string"@) {
        lemma_details_are_errors(index, entry, at, "Must be a string"@);
    }
    if has_error(detail_errors(base, object), at, "Must be an array"@) {
        lemma_details_are_errors(index, entry, at, "Must be an array"@);
    }
    if has_error(detail_errors(base, object), at, "Must be a number or null"@) {
        lemma_details_are_errors(index, entry, at, "Must be a number or null"@);
    }
}

proof fn lemma_text_item_error(path: Seq<char>, items: Seq<JsonModel>, i: int)
    requires
        0 <= i < items.len(),
        !(items[i] is Text),
    ensures
        has_error(text_item_errors(path, items), item_path(path, i as nat), "Must be a string"@),
    decreases items.len(),
{
    let rest = items.drop_last();
    let at = item_path(path, i as nat);
    let last = item_path(path, (items.len() - 1) as nat);
    lemma_one_error(at, "Must be a string"@);
    lemma_has(
        text_item_errors(path, rest),
        one_error(last, "Must be a string"@),
        at,
        "Must be a string"@,
    );
    if i < rest.len() {
        assert(rest[i] == items[i]);
        lemma_text_item_error(path, rest, i);
    }
}

/// An item of the aliases or the themes that is no text is reported at its place.
pub proof fn wrong_items_are_reported(index: nat, entry: JsonModel, key: Seq<char>, i: int)
    requires
        is_sound(entry),
        key == "aliases"@ || key == "themes"@,
        field(entry, key) is Some,
        field(entry, key)->0 is Array,
        0 <= i < field(entry, key)->0->Array_0.len(),
        !(field(entry, key)->0->Array_0[i] is Text),
    ensures
        has_error(
            entry_errors(index, entry),
            place_of(index) + "."@ + key + "["@ + decimal(i as nat) + "]"@,
            "Must be a string"@,
        ),
{
    let object = entry->Object_0;
    let base = place_of(index);
    let at = item_path(field_path(base, key), i as nat);
    lemma_text_item_error(field_path(base, key), object[key]->Array_0, i);
    lemma_detail_parts(base, object, at, "Must be a string"@);
    lemma_details_are_errors(index, entry, at, "Must be a string"@);
}

proof fn lemma_executable_item_error(
    base: Seq<char>,
    items: Seq<JsonModel>,
    i: int,
    path: Seq<char>,
    message: Seq<char>,
)
    requires
        0 <= i < items.len(),
        has_error(
            executable_errors(
                item_path(field_path(base, "executables"@), i as nat),
                items[i],
            ),
            path,
            message,
        ),
    ensures
        has_error(executable_item_errors(base, items), path, message),
    decreases items.len(),
{
    let rest = items.drop_last();
    let last = item_path(field_path(base, "executables"@), (items.len() - 1) as nat);
    lemma_has(
        executable_item_errors(base, rest),
        executable_errors(last, items.last()),
        path,
        message,
    );
    if i < rest.len() {
        assert(rest[i] == items[i]);
        lemma_executable_item_error(base, rest, i, path, message);
    }
}

/// What is wrong with an executable is reported at its place: that it is no
/// object, that its name is missing, blank or no text, and that its other fields
/// are of the wrong kind or name an unknown platform.
pub proof fn wrong_executables_are_reported(
    index: nat,
    entry: JsonModel,
    i: int,
    path: Seq<char>,
    message: Seq<char>,
)
    requires
        is_sound(entry),
        field(entry, "executables"@) is Some,
        0 <= i < field(entry, "executables"@)->0->Array_0.len(),
        ({
            let exe = field(entry, "executables"@)->0->Array_0[i];
            let at = place_of(index) + "."@ + "executables"@ + "["@ + decimal(i as nat) + "]"@;
            let name = field(exe, "name"@);
            let os = field(exe, "os"@);
            ||| {
                &&& !(exe is Object)
                &&& path == at && message == "Must be an object"@
            }
            ||| {
                &&& exe is Object && name is None
                &&& path == at + "."@ + "name"@ && message == "Missing required field: name"@
            }
            ||| {
                &&& name is Some && !(name->0 is Text)
                &&& path == at + "."@ + "name"@ && message == "Must be a string"@
            }
            ||| {
                &&& name is Some && name->0 is Text && trimmed(name->0->Text_0).len() == 0
                &&& path == at + "."@ + "name"@ && message == "Cannot be empty"@
            }
            ||| {
                &&& exe is Object && !may_be_boolean(exe, "is_launcher"@)
                &&& path == at + "."@ + "is_launcher"@ && message == "Must be a boolean"@
            }
            ||| {
                &&& exe is Object && !may_be_text(exe, "arguments"@)
                &&& path == at + "."@ + "arguments"@ && message == "Must be a string"@
            }
            ||| {
                &&& os is Some && !(os->0 is Text)
                &&& path == at + "."@ + "os"@ && message == "Must be a string"@
            }
            ||| {
                &&& os is Some && os->0 is Text && os->0->Text_0 != "win32"@ && os->0->Text_0
                    != "linux"@ && os->0->Text_0 != "darwin"@
                &&& path == at + "."@ + "os"@ && message == "Must be one of: win32, linux, darwin"@
            }
        }),
    ensures
        has_error(entry_errors(index, entry), path, message),
{
    reveal(entry_errors);
    lemma_place(index);
    let base = place_of(index);
    let items = field(entry, "executables"@)->0->Array_0;
    let exe = items[i];
    let at = item_path(field_path(base, "executables"@), i as nat);
    lemma_one_error(path, message);
    if let JsonModel::Object(object) = exe {
        let e0 = name_errors(at, object);
        let e1 = boolean_errors(at, object, "is_launcher"@);
        let e2 = string_errors(at, object, "arguments"@);
        let e3 = platform_errors(at, object);
        lemma_has(e0, e1, path, message);
        lemma_has(e0 + e1, e2, path, message);
        lemma_has(e0 + e1 + e2, e3, path, message);
    }
    assert(has_error(executable_errors(at, exe), path, message));
    lemma_executable_item_error(base, items, i, path, message);
    lemma_has(
        executable_item_errors(base, items),
        detail_errors(base, entry->Object_0),
        path,
        message,
    );
}

/// The errors of a file are those of its entries, in their order, and a file that
/// is no list has one of its own.
pub proof fn files_report_all_entries(entries: Seq<JsonModel>, entry: JsonModel, fixes: JsonModel)
    ensures
        all_errors(Seq::empty()) == Seq::<ErrorModel>::empty(),
        all_errors(entries.push(entry)) == all_errors(entries) + entry_errors(entries.len(), entry),
        file_errors(JsonModel::Array(entries)) == all_errors(entries),
        !(fixes is Array) ==> file_errors(fixes) == seq![
            ErrorModel { path: "detectable_fixes.json"@, message: "Root must be an array"@ },
        ],
{
    assert(entries.push(entry).drop_last() =~= entries);
    assert(file_errors(fixes) =~= seq![
        ErrorModel { path: "detectable_fixes.json"@, message: "Root must be an array"@ },
    ] || fixes is Array);
}

/// The entries of a file that passes are told of in their order: whether they
/// patch a game of the database or add one, and a warning where they add one
/// without a name.
pub proof fn passed_entries_are_told_of(
    entries: Seq<JsonModel>,
    entry: JsonModel,
    ids: Set<Seq<char>>,
)
    ensures
        ({
            let all = entries.push(entry);
            let head = "Entry "@ + decimal(entries.len());
            let id = text_field(entry, "id"@)->0;
            let patches = head + ": Patches existing game (ID: "@ + id + ")"@;
            let adds = head + ": Adds new game (ID: "@ + id + ")"@;
            let warning = "Warning: New game without 'name' field will use \"Custom Game\""@;
            &&& all_notices(Seq::empty(), ids) == Seq::<Seq<char>>::empty()
            &&& all_errors(all).len() > 0 ==> all_notices(all, ids) == all_notices(entries, ids)
            &&& all_errors(all).len() == 0 ==> all_notices(all, ids) == all_notices(entries, ids)
                + (if ids.contains(id) {
                seq![patches]
            } else if field(entry, "name"@) is Some {
                seq![adds]
            } else {
                seq![adds, warning]
            })
        }),
{
    let all = entries.push(entry);
    assert(all.drop_last() =~= entries);
    if all_errors(all).len() == 0 {
        assert(all_errors(all).len() == all_errors(entries).len() + entry_errors(
            entries.len(),
            entry,
        ).len());
        valid_entries_pass(entries.len(), entry);
    }
}

/// Errors are reported in their order, each with its place and its message, below
/// a line that says so.
pub proof fn each_error_has_its_line(errors: Seq<ErrorModel>)
    ensures
        error_lines(errors).len() == errors.len() + 1,
        error_lines(errors)[0] == "Validation failed with errors:"@,
        forall|i: int|
            0 <= i < errors.len() ==> error_lines(errors)[i + 1] == "  "@ + (
            #[trigger] errors[i]).path + ": "@ + errors[i].message,
{
}

} // verus!
