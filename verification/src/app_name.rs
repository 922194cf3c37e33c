//! The names of applications, by their ids.
use crate::text::{opt_text, same_text};
use crate::text_map::TextMap;
use vstd::prelude::*;

verus! {

/// An application of the database: its id and its name.
#[derive(Debug)]
pub struct AppName {
    pub id: String,
    pub name: String,
}

/// The id and the name of each application.
pub open spec fn names_model(apps: Seq<AppName>) -> Seq<(Seq<char>, Seq<char>)> {
    apps.map_values(|app: AppName| (app.id@, app.name@))
}

/// The name of the first application with this id, from `from` on.
pub open spec fn name_of(
    apps: Seq<(Seq<char>, Seq<char>)>,
    id: Seq<char>,
    from: int,
) -> Option<Seq<char>>
    decreases apps.len() - from,
{
    if from >= apps.len() {
        None
    } else if apps[from].0 == id {
        Some(apps[from].1)
    } else {
        name_of(apps, id, from + 1)
    }
}

/// The name of the application with this id, by the database.
pub fn app_name_by_id(apps: &Vec<AppName>, app_id: &str) -> (r: Option<String>)
    ensures
        opt_text(r) == name_of(names_model(apps@), app_id@, 0),
{
    let ghost models = names_model(apps@);
    let mut i: usize = 0;
    while i < apps.len()
        invariant
            i <= apps@.len(),
            models == names_model(apps@),
            name_of(models, app_id@, 0) == name_of(models, app_id@, i as int),
        decreases apps@.len() - i,
    {
        assert(models[i as int] == (apps@[i as int].id@, apps@[i as int].name@));
        if same_text(apps[i].id.as_str(), app_id) {
            return Some(apps[i].name.clone());
        }
        i += 1;
    }
    None
}

/// Where the name of an application is asked for.
pub open spec fn name_address(app_id: Seq<char>) -> Seq<char> {
    "https://discord.com/api/v10/applications/"@ + app_id + "/rpc"@
}

/// Where the name of an application is asked for.
pub fn app_name_url(app_id: &str) -> (r: String)
    ensures
        r@ == name_address(app_id@),
{
    let mut url = "https://discord.com/api/v10/applications/".to_string();
    url.append(app_id);
    url.append("/rpc");
    url
}

/// How to come by a name.
#[derive(Debug)]
pub enum NameStep {
    /// The name is known, or it is known that there is none.
    Known(Option<String>),
    /// Ask at this address, then go on with [`NameCache::store`].
    Fetch(String),
}

/// The names that have been asked for.
#[derive(Debug)]
pub struct NameCache {
    names: TextMap<Option<String>>,
}

impl View for NameCache {
    type V = Map<Seq<char>, Option<Seq<char>>>;

    closed spec fn view(&self) -> Map<Seq<char>, Option<Seq<char>>> {
        self.names@.map_values(|name: Option<String>| opt_text(name))
    }
}

/// `step` is how to come by the name of `id`: from the database, from what has been
/// answered before, or by asking.
pub open spec fn is_name_step(
    apps: Seq<(Seq<char>, Seq<char>)>,
    answers: Map<Seq<char>, Option<Seq<char>>>,
    id: Seq<char>,
    step: NameStep,
) -> bool {
    match name_of(apps, id, 0) {
        Some(name) => step matches NameStep::Known(n) && opt_text(n) == Some(name),
        None => if answers.contains_key(id) {
            step matches NameStep::Known(n) && opt_text(n) == answers[id]
        } else {
            step matches NameStep::Fetch(url) && url@ == name_address(id)
        },
    }
}

impl NameCache {
    /// Each id has one answer.
    pub closed spec fn wf(&self) -> bool {
        self.names.wf()
    }

    /// No name has been asked for.
    pub fn new() -> (r: NameCache)
        ensures
            r.wf(),
            r@ == Map::<Seq<char>, Option<Seq<char>>>::empty(),
    {
        let r = NameCache { names: TextMap::new() };
        assert(r@ =~= Map::<Seq<char>, Option<Seq<char>>>::empty());
        r
    }

    /// How to come by the name of `app_id`: from the database, from what has
    /// been answered before, or by asking.
    pub fn resolve_app_name_by_id(&self, apps: &Vec<AppName>, app_id: &str) -> (r: NameStep)
        requires
            self.wf(),
        ensures
            is_name_step(names_model(apps@), self@, app_id@, r),
    {
        if let Some(name) = app_name_by_id(apps, app_id) {
            return NameStep::Known(Some(name));
        }
        match self.names.get(app_id) {
            Some(Some(name)) => NameStep::Known(Some(name.clone())),
            Some(None) => NameStep::Known(None),
            None => NameStep::Fetch(app_name_url(app_id)),
        }
    }

    /// Takes note of the answer for `app_id`.
    pub fn store(&mut self, app_id: &str, name: Option<String>)
        requires
            old(self).wf(),
        ensures
            final(self).wf(),
            final(self)@ == old(self)@.insert(app_id@, opt_text(name)),
    {
        let ghost before = self@;
        let ghost answer = opt_text(name);
        self.names.insert(app_id, name);
        assert(self@ =~= before.insert(app_id@, answer));
    }
}

/// The name of an application is that of the first one with its id, and there is
/// none only where no application has the id.
pub proof fn the_first_name_counts(
    apps: Seq<(Seq<char>, Seq<char>)>,
    id: Seq<char>,
    n: int,
)
    ensures
        0 <= n < apps.len() && apps[n].0 == id && (forall|j: int|
            0 <= j < n ==> (#[trigger] apps[j]).0 != id) ==> name_of(apps, id, 0) == Some(
            apps[n].1,
        ),
        (forall|j: int| 0 <= j < apps.len() ==> (#[trigger] apps[j]).0 != id) ==> name_of(
            apps,
            id,
            0,
        ) is None,
{
    if 0 <= n < apps.len() && apps[n].0 == id && (forall|j: int|
        0 <= j < n ==> (#[trigger] apps[j]).0 != id) {
        lemma_first_name(apps, id, 0, n);
    }
    if forall|j: int| 0 <= j < apps.len() ==> (#[trigger] apps[j]).0 != id {
        lemma_no_name(apps, id, 0);
    }
}

proof fn lemma_first_name(
    apps: Seq<(Seq<char>, Seq<char>)>,
    id: Seq<char>,
    from: int,
    n: int,
)
    requires
        0 <= from <= n < apps.len(),
        apps[n].0 == id,
        forall|j: int| 0 <= j < n ==> (#[trigger] apps[j]).0 != id,
    ensures
        name_of(apps, id, from) == Some(apps[n].1),
    decreases n - from,
{
    if from < n {
        assert(apps[from].0 != id);
        lemma_first_name(apps, id, from + 1, n);
    }
}

proof fn lemma_no_name(apps: Seq<(Seq<char>, Seq<char>)>, id: Seq<char>, from: int)
    requires
        0 <= from,
        forall|j: int| 0 <= j < apps.len() ==> (#[trigger] apps[j]).0 != id,
    ensures
        name_of(apps, id, from) is None,
    decreases apps.len() - from,
{
    if from < apps.len() {
        assert(apps[from].0 != id);
        lemma_no_name(apps, id, from + 1);
    }
}

/// A name of the database is known whatever has been answered before. An id that
/// the database does not have is asked for once: with the answer, be it a name or
/// none, it is known.
pub proof fn names_are_asked_for_once(
    apps: Seq<(Seq<char>, Seq<char>)>,
    answers: Map<Seq<char>, Option<Seq<char>>>,
    id: Seq<char>,
    answer: Option<Seq<char>>,
    n: int,
    step: NameStep,
    later: NameStep,
)
    requires
        is_name_step(apps, answers, id, step),
        is_name_step(apps, answers.insert(id, answer), id, later),
    ensures
        0 <= n < apps.len() && apps[n].0 == id && (forall|j: int|
            0 <= j < n ==> (#[trigger] apps[j]).0 != id) ==> (step matches NameStep::Known(known)
            && opt_text(known) == Some(apps[n].1)),
        (forall|j: int| 0 <= j < apps.len() ==> (#[trigger] apps[j]).0 != id) ==> {
            &&& answers.contains_key(id) ==> (step matches NameStep::Known(known) && opt_text(known)
                == answers[id])
            &&& !answers.contains_key(id) ==> (step matches NameStep::Fetch(url) && url@
                == "https://discord.com/api/v10/applications/"@ + id + "/rpc"@)
            &&& (later matches NameStep::Known(known) && opt_text(known) == answer)
        },
{
    the_first_name_counts(apps, id, n);
}

} // verus!
