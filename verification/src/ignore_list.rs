//! The games that process scanning passes over.
use vstd::prelude::*;

use crate::json::{items_model, json_model, parsed_text, Json, JsonError, JsonModel};
use crate::text::{
    chars_of, contains, list_has, lower, lowercase, string_of, text_contains, text_trim, texts,
    trimmed,
};

verus! {

/// A set of application ids, executable names and parts of game names, all in
/// the form that [`IgnoreList::normalize`] gives them.
#[derive(Debug)]
pub struct IgnoreList {
    pub entries: Vec<String>,
}

impl View for IgnoreList {
    type V = Set<Seq<char>>;

    open spec fn view(&self) -> Set<Seq<char>> {
        texts(self.entries@).to_set()
    }
}

/// Why a list could not be read.
#[derive(Debug)]
pub enum IgnoreListError {
    Json(JsonError),
    NotAnArray,
}

/// `s` without surrounding white space, in lower case.
pub open spec fn normalized(s: Seq<char>) -> Seq<char> {
    lowercase(trimmed(s))
}

/// The part of a path behind its last slash or backslash.
pub open spec fn last_segment(path: Seq<char>) -> Seq<char>
    decreases path.len(),
{
    if path.len() == 0 || path.last() == '/' || path.last() == '\\' {
        Seq::empty()
    } else {
        last_segment(path.drop_last()).push(path.last())
    }
}

/// Whether `entries` name the application, its executable, or a game whose
/// name holds an entry or is held by one; all of them normalized.
pub open spec fn is_entered(
    entries: Set<Seq<char>>,
    app_id: Seq<char>,
    executable: Seq<char>,
    game_name: Seq<char>,
) -> bool {
    ||| entries.contains(app_id)
    ||| entries.contains(executable)
    ||| exists|entry: Seq<char>| #[trigger]
        entries.contains(entry) && (contains(game_name, entry) || contains(entry, game_name))
}

/// Whether `entries` name the application, the file name of its executable, or
/// a game whose name holds an entry or is held by one.
pub open spec fn is_ignored(
    entries: Set<Seq<char>>,
    app_id: Seq<char>,
    executable: Seq<char>,
    game_name: Seq<char>,
) -> bool {
    is_entered(
        entries,
        normalized(app_id),
        normalized(last_segment(executable)),
        normalized(game_name),
    )
}

/// The normalized texts among `values`, in order; what is no text is left out.
pub open spec fn normalized_texts(values: Seq<JsonModel>) -> Seq<Seq<char>>
    decreases values.len(),
{
    if values.len() == 0 {
        Seq::empty()
    } else {
        let before = normalized_texts(values.drop_last());
        match values.last() {
            JsonModel::Text(s) => before.push(normalized(s)),
            _ => before,
        }
    }
}

fn path_tail(path: &str) -> (r: String)
    ensures
        r@ == last_segment(path@),
{
    let chars = chars_of(path);
    let mut i: usize = chars.len();
    assert(path@.take(i as int) =~= path@);
    while i > 0 && chars[i - 1] != '/' && chars[i - 1] != '\\'
        invariant
            chars@ == path@,
            i <= path@.len(),
            last_segment(path@) == last_segment(path@.take(i as int)) + path@.skip(i as int),
        decreases i,
    {
        assert(path@.take(i as int).drop_last() =~= path@.take(i - 1));
        assert(last_segment(path@.take(i - 1)).push(path@[i - 1]) + path@.skip(i as int)
            =~= last_segment(path@.take(i - 1)) + path@.skip(i - 1));
        i -= 1;
    }
    assert(last_segment(path@.take(i as int)) =~= Seq::<char>::empty());
    assert(last_segment(path@) =~= path@.subrange(i as int, path@.len() as int));
    string_of(&chars.as_slice()[i..chars.len()])
}

/// The outcome of reading a list from the text of its file.
pub open spec fn is_list_outcome(raw: Seq<char>, r: Result<IgnoreList, IgnoreListError>) -> bool {
    match parsed_text(raw) {
        Some(JsonModel::Array(values)) => r matches Ok(list) && list@ == normalized_texts(
            values,
        ).to_set(),
        Some(_) => r matches Err(IgnoreListError::NotAnArray),
        None => r matches Err(IgnoreListError::Json(_)),
    }
}

impl IgnoreList {
    /// The list without entries.
    pub fn empty() -> (r: IgnoreList)
        ensures
            r@ == Set::<Seq<char>>::empty(),
    {
        let entries: Vec<String> = Vec::new();
        assert(texts(entries@).to_set() =~= Set::<Seq<char>>::empty());
        IgnoreList { entries }
    }

    /// The list of the texts among `values`.
    pub fn from_values(values: &Vec<Json>) -> (r: IgnoreList)
        ensures
            r@ == normalized_texts(items_model(values@)).to_set(),
    {
        let mut entries: Vec<String> = Vec::new();
        let mut i: usize = 0;
        assert(texts(entries@) =~= normalized_texts(items_model(values@.take(0))));
        while i < values.len()
            invariant
                i <= values@.len(),
                texts(entries@) == normalized_texts(items_model(values@.take(i as int))),
            decreases values@.len() - i,
        {
            assert(items_model(values@.take(i + 1)).drop_last() =~= items_model(
                values@.take(i as int),
            ));
            assert(items_model(values@.take(i + 1)).last() == json_model(values@[i as int]));
            if let Json::Text(s) = &values[i] {
                let ghost before = entries@;
                entries.push(IgnoreList::normalize(s.as_str()));
                assert(texts(entries@) =~= texts(before).push(normalized(s@)));
            }
            i += 1;
        }
        assert(values@.take(i as int) =~= values@);
        IgnoreList { entries }
    }

    /// Reads a list from the text of its file, which holds a JSON array.
    pub fn from_text(raw: &str) -> (r: Result<IgnoreList, IgnoreListError>)
        ensures
            is_list_outcome(raw@, r),
    {
        match Json::parse(raw) {
            Ok(Json::Array(values)) => Ok(IgnoreList::from_values(&values)),
            Ok(_) => Err(IgnoreListError::NotAnArray),
            Err(error) => Err(IgnoreListError::Json(error)),
        }
    }

    /// Whether a game is to be passed over.
    pub fn should_ignore(&self, app_id: &str, executable: &str, game_name: &str) -> (r: bool)
        ensures
            r == is_ignored(self@, app_id@, executable@, game_name@),
    {
        self.has_entry_for(
            IgnoreList::normalize(app_id).as_str(),
            IgnoreList::normalize(path_tail(executable).as_str()).as_str(),
            IgnoreList::normalize(game_name).as_str(),
        )
    }

    /// Whether a game is to be passed over, by its normalized names.
    pub fn has_entry_for(&self, app_id: &str, executable: &str, game_name: &str) -> (r: bool)
        ensures
            r == is_entered(self@, app_id@, executable@, game_name@),
    {
        if list_has(&self.entries, app_id) || list_has(&self.entries, executable) {
            return true;
        }
        let mut i: usize = 0;
        while i < self.entries.len()
            invariant
                i <= self.entries@.len(),
                forall|j: int|
                    0 <= j < i ==> !contains(game_name@, #[trigger] texts(self.entries@)[j])
                        && !contains(texts(self.entries@)[j], game_name@),
            decreases self.entries@.len() - i,
        {
            let ghost entry = texts(self.entries@)[i as int];
            if text_contains(game_name, self.entries[i].as_str()) || text_contains(
                self.entries[i].as_str(),
                game_name,
            ) {
                assert(self@.contains(entry));
                return true;
            }
            i += 1;
        }
        assert forall|entry: Seq<char>| #[trigger] self@.contains(entry) implies !contains(
            game_name@,
            entry,
        ) && !contains(entry, game_name@) by {
            let j = choose|j: int| 0 <= j < texts(self.entries@).len() && texts(self.entries@)[j] == entry;
            assert(texts(self.entries@)[j] == entry);
        }
        false
    }

    /// `value` without surrounding white space, in lower case.
    pub fn normalize(value: &str) -> (r: String)
        ensures
            r@ == normalized(value@),
    {
        lower(text_trim(value).as_str())
    }
}

impl Default for IgnoreList {
    fn default() -> (r: IgnoreList)
        ensures
            r@ == Set::<Seq<char>>::empty(),
    {
        IgnoreList::empty()
    }
}

/// A list without entries passes over nothing.
pub proof fn empty_list_ignores_nothing(
    app_id: Seq<char>,
    executable: Seq<char>,
    game_name: Seq<char>,
)
    ensures
        !is_ignored(Set::empty(), app_id, executable, game_name),
{
}

/// More entries pass over no fewer games.
pub proof fn longer_lists_ignore_more(
    entries: Set<Seq<char>>,
    more: Set<Seq<char>>,
    app_id: Seq<char>,
    executable: Seq<char>,
    game_name: Seq<char>,
)
    requires
        entries.subset_of(more),
        is_ignored(entries, app_id, executable, game_name),
    ensures
        is_ignored(more, app_id, executable, game_name),
{
}

/// The entries of a list are the texts in its file, each trimmed and in lower
/// case, and nothing else in the file is an entry.
pub proof fn texts_become_entries(
    first: Seq<JsonModel>,
    value: JsonModel,
    rest: Seq<JsonModel>,
)
    ensures
        normalized_texts(Seq::empty()) == Seq::<Seq<char>>::empty(),
        normalized_texts(seq![value]) == (match value {
            JsonModel::Text(s) => seq![lowercase(trimmed(s))],
            _ => Seq::empty(),
        }),
        normalized_texts(first + rest) == normalized_texts(first) + normalized_texts(rest),
    decreases rest.len(),
{
    let one = seq![value];
    assert(one.drop_last() =~= Seq::empty());
    assert(normalized_texts(one.drop_last()) =~= Seq::empty());
    assert(normalized_texts(one) =~= (match value {
        JsonModel::Text(s) => seq![lowercase(trimmed(s))],
        _ => Seq::empty(),
    }));
    let all = first + rest;
    if rest.len() == 0 {
        assert(all =~= first);
        assert(normalized_texts(first) + normalized_texts(rest) =~= normalized_texts(first));
    } else {
        texts_become_entries(first, value, rest.drop_last());
        assert(all.drop_last() =~= first + rest.drop_last());
        assert(all.last() == rest.last());
        assert(normalized_texts(all) =~= normalized_texts(first) + normalized_texts(rest));
    }
}

/// A text is an entry of a list if and only if a text of its file is it, once
/// trimmed and in lower case.
pub proof fn entries_come_from_texts(values: Seq<JsonModel>, entry: Seq<char>)
    ensures
        normalized_texts(values).to_set().contains(entry) <==> exists|i: int|
            0 <= i < values.len() && (#[trigger] values[i]) is Text && entry == lowercase(trimmed(values[i]->Text_0)),
    decreases values.len(),
{
    let all = normalized_texts(values);
    if values.len() > 0 {
        let rest = values.drop_last();
        let before = normalized_texts(rest);
        entries_come_from_texts(rest, entry);
        assert(all.contains(entry) <==> before.contains(entry) || (values.last() matches
            JsonModel::Text(s) && entry == lowercase(trimmed(s)))) by {
            if before.contains(entry) {
                let k = choose|k: int| 0 <= k < before.len() && before[k] == entry;
                assert(all[k] == entry);
            }
            if let JsonModel::Text(s) = values.last() {
                assert(all[before.len() as int] == lowercase(trimmed(s)));
            }
            if all.contains(entry) {
                let k = choose|k: int| 0 <= k < all.len() && all[k] == entry;
                if k < before.len() {
                    assert(before[k] == entry);
                }
            }
        }
        if before.contains(entry) {
            let i = choose|i: int|
                0 <= i < rest.len() && (#[trigger] rest[i]) is Text && entry == lowercase(trimmed(rest[i]->Text_0));
            assert(values[i] == rest[i]);
        }
        if values.last() matches JsonModel::Text(s) && entry == lowercase(trimmed(s)) {
            assert(values[values.len() - 1] == values.last());
        }
        if exists|i: int|
            0 <= i < values.len() && (#[trigger] values[i]) is Text && entry == lowercase(trimmed(values[i]->Text_0)) {
            let i = choose|i: int|
                0 <= i < values.len() && (#[trigger] values[i]) is Text && entry == lowercase(trimmed(values[i]->Text_0));
            if i < rest.len() {
                assert(rest[i] == values[i]);
            }
        }
    }
}

/// A file that holds a list gives the list of its texts, each of which then hides
/// the games it names. Any other file is refused.
pub proof fn files_give_lists(
    raw: Seq<char>,
    r: Result<IgnoreList, IgnoreListError>,
    i: int,
    app_id: Seq<char>,
    executable: Seq<char>,
    game_name: Seq<char>,
)
    requires
        is_list_outcome(raw, r),
    ensures
        r is Ok <==> parsed_text(raw) is Some && parsed_text(raw)->0 is Array,
        parsed_text(raw) is None <==> (r matches Err(IgnoreListError::Json(_))),
        r is Ok ==> {
            let values = parsed_text(raw)->0->Array_0;
            0 <= i < values.len() && values[i] is Text && (contains(
                lowercase(trimmed(game_name)),
                lowercase(trimmed(values[i]->Text_0)),
            ) || lowercase(trimmed(app_id)) == lowercase(trimmed(values[i]->Text_0)))
                ==> is_ignored(r->Ok_0@, app_id, executable, game_name)
        },
{
    if r is Ok {
        let values = parsed_text(raw)->0->Array_0;
        if 0 <= i < values.len() && values[i] is Text {
            let entry = lowercase(trimmed(values[i]->Text_0));
            entries_come_from_texts(values, entry);
            assert(r->Ok_0@.contains(entry));
        }
    }
}

/// The file name of a path is what follows its last slash or backslash, and all
/// of a path without either.
pub proof fn file_names_follow_the_last_separator(dir: Seq<char>, sep: char, name: Seq<char>)
    requires
        sep == '/' || sep == '\\',
        !name.contains('/'),
        !name.contains('\\'),
    ensures
        last_segment(dir + seq![sep] + name) == name,
        last_segment(name) == name,
    decreases name.len(),
{
    let whole = dir + seq![sep] + name;
    if name.len() == 0 {
        assert(whole.last() == sep);
        assert(last_segment(whole) =~= name);
        assert(last_segment(name) =~= name);
    } else {
        let rest = name.drop_last();
        assert forall|c: char| #[trigger] rest.contains(c) implies name.contains(c) by {
            let j = choose|j: int| 0 <= j < rest.len() && rest[j] == c;
            assert(name[j] == c);
        }
        assert(name.contains(name.last()));
        file_names_follow_the_last_separator(dir, sep, rest);
        assert(whole.drop_last() =~= dir + seq![sep] + rest);
        assert(whole.last() == name.last());
        assert(rest.push(name.last()) =~= name);
    }
}

/// A game is passed over if and only if an entry is its id or the file name of
/// its program, or stands in its name, or its name stands in an entry; all of
/// them trimmed and in lower case.
pub proof fn games_are_ignored_by_id_program_or_name(
    entries: Set<Seq<char>>,
    app_id: Seq<char>,
    dir: Seq<char>,
    sep: char,
    program: Seq<char>,
    game_name: Seq<char>,
)
    requires
        sep == '/' || sep == '\\',
        !program.contains('/'),
        !program.contains('\\'),
    ensures
        ({
            let name = lowercase(trimmed(game_name));
            let by_entry = {
                ||| entries.contains(lowercase(trimmed(app_id)))
                ||| entries.contains(lowercase(trimmed(program)))
                ||| exists|entry: Seq<char>| #[trigger]
                    entries.contains(entry) && (contains(name, entry) || contains(entry, name))
            };
            &&& is_ignored(entries, app_id, dir + seq![sep] + program, game_name) == by_entry
            &&& is_ignored(entries, app_id, program, game_name) == by_entry
        }),
{
    file_names_follow_the_last_separator(dir, sep, program);
}

/// An entry that names a game, or a part of its name, hides the game, whatever
/// its id and its program are.
pub proof fn entries_hide_games_by_name(
    entries: Set<Seq<char>>,
    entry: Seq<char>,
    app_id: Seq<char>,
    executable: Seq<char>,
    game_name: Seq<char>,
)
    requires
        entries.contains(entry),
        contains(lowercase(trimmed(game_name)), entry) || contains(
            entry,
            lowercase(trimmed(game_name)),
        ),
    ensures
        is_ignored(entries, app_id, executable, game_name),
{
}

/// An entry that is the id of an application hides its games, whatever their
/// names are.
pub proof fn entries_hide_games_by_id(
    entries: Set<Seq<char>>,
    app_id: Seq<char>,
    executable: Seq<char>,
    game_name: Seq<char>,
)
    requires
        entries.contains(lowercase(trimmed(app_id))),
    ensures
        is_ignored(entries, app_id, executable, game_name),
{
}

} // verus!
