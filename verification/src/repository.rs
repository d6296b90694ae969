//! The repository resolver: decides where a requested template comes from —
//! the local cache, or a remote git repository named by the registry — and
//! what has to happen to the cache before a remote template is materialized.

use vstd::prelude::*;
use crate::json::{
    parse_json, json_get, json_string, json_array, spec_parse_json, spec_json_get,
    spec_json_string, spec_json_array,
};
use crate::text::{str_to_chars, str_eq_chars};

verus! {

/// Where a template's files come from: the local cache as it stands, or a
/// fresh clone of a remote git repository.
pub enum RepoSource {
    Local,
    Remote(String),
}

pub ghost enum RepoSourceV {
    Local,
    Remote(Seq<char>),
}

impl View for RepoSource {
    type V = RepoSourceV;

    open spec fn view(&self) -> RepoSourceV {
        match self {
            RepoSource::Local => RepoSourceV::Local,
            RepoSource::Remote(url) => RepoSourceV::Remote(url@),
        }
    }
}

impl Clone for RepoSource {
    fn clone(&self) -> (r: Self)
        ensures
            r@ == self@,
    {
        match self {
            RepoSource::Local => RepoSource::Local,
            RepoSource::Remote(url) => RepoSource::Remote(url.clone()),
        }
    }
}

/// A resolved template reference: the requested name, and the source its
/// files will be taken from.
pub struct Repo {
    pub name: String,
    pub url: RepoSource,
}

pub ghost struct RepoV {
    pub name: Seq<char>,
    pub url: RepoSourceV,
}

impl View for Repo {
    type V = RepoV;

    open spec fn view(&self) -> RepoV {
        RepoV { name: self.name@, url: self.url@ }
    }
}

impl Clone for Repo {
    fn clone(&self) -> (r: Self)
        ensures
            r@ == self@,
    {
        Repo { name: self.name.clone(), url: self.url.clone() }
    }
}

impl Repo {
    pub fn new(name: &str, url: RepoSource) -> (r: Self)
        ensures
            r@ == (RepoV { name: name@, url: url@ }),
    {
        Repo { name: name.to_owned(), url }
    }
}

/// Why a template name could not be resolved: it is nowhere to be found, or
/// the registry could not be consulted (unreachable endpoint or a document
/// that is not a well-formed registry).
#[derive(Debug)]
pub enum ResolveError {
    NotFound,
    RegistryUnavailable,
}

/// The first registry entry bearing the requested name, if any: names are
/// expected to be unique, and on duplicates the first listed wins.
pub open spec fn find_entry(entries: Seq<RepoV>, name: Seq<char>) -> Option<RepoV>
    decreases entries.len(),
{
    if entries.len() == 0 {
        None
    } else if entries[0].name == name {
        Some(entries[0])
    } else {
        find_entry(entries.drop_first(), name)
    }
}

/// Scans a registry's entries for the requested name, first match wins.
pub fn search_entries(name: &str, entries: &Vec<Repo>) -> (r: Option<Repo>)
    ensures
        match r {
            Some(rep) => find_entry(entries@.map_values(|e: Repo| e@), name@) == Some(rep@),
            None => find_entry(entries@.map_values(|e: Repo| e@), name@) is None,
        },
{
    let ghost views = entries@.map_values(|e: Repo| e@);
    let nc = str_to_chars(name);
    let n = entries.len();
    let mut i: usize = 0;
    proof {
        assert(views.skip(0) =~= views);
    }
    while i < n
        invariant
            0 <= i <= n,
            n == entries@.len(),
            nc@ == name@,
            views == entries@.map_values(|e: Repo| e@),
            find_entry(views, name@) == find_entry(views.skip(i as int), name@),
        decreases n - i,
    {
        proof {
            assert(views.skip(i as int)[0] == views[i as int]);
            assert(views.skip(i as int).drop_first() =~= views.skip(i + 1));
        }
        if str_eq_chars(entries[i].name.as_str(), &nc) {
            let found = entries[i].clone();
            return Some(found);
        }
        i += 1;
    }
    proof {
        assert(views.skip(n as int) =~= Seq::<RepoV>::empty());
    }
    None
}

/// The registry entry a JSON value stands for: an object whose `name` and
/// `url` fields are strings names a remote source; anything else is no entry.
pub open spec fn spec_entry_of(v: serde_json::Value) -> Option<RepoV> {
    match (spec_json_get(v, "name"@), spec_json_get(v, "url"@)) {
        (Some(nf), Some(uf)) => match (spec_json_string(nf), spec_json_string(uf)) {
            (Some(name), Some(url)) => Some(RepoV { name, url: RepoSourceV::Remote(url) }),
            _ => None,
        },
        _ => None,
    }
}

/// The entries a JSON array stands for, in order; nothing if any element is
/// no entry.
pub open spec fn spec_entries_of(items: Seq<serde_json::Value>) -> Option<Seq<RepoV>>
    decreases items.len(),
{
    if items.len() == 0 {
        Some(Seq::<RepoV>::empty())
    } else {
        match spec_entry_of(items[0]) {
            Some(e) => match spec_entries_of(items.drop_first()) {
                Some(rest) => Some(seq![e] + rest),
                None => None,
            },
            None => None,
        }
    }
}

/// What a text means as a registry document: its entries, when the text is
/// a JSON array of `{"name", "url"}` objects; nothing otherwise.
pub open spec fn spec_registry_of(text: Seq<char>) -> Option<Seq<RepoV>> {
    match spec_parse_json(text) {
        Some(doc) => match spec_json_array(doc) {
            Some(items) => spec_entries_of(items),
            None => None,
        },
        None => None,
    }
}

proof fn lemma_entries_of_all(items: Seq<serde_json::Value>, entries: Seq<RepoV>)
    requires
        entries.len() == items.len(),
        forall|j: int| 0 <= j < items.len() ==> spec_entry_of(#[trigger] items[j]) == Some(
            entries[j],
        ),
    ensures
        spec_entries_of(items) == Some(entries),
    decreases items.len(),
{
    if items.len() > 0 {
        lemma_entries_of_all(items.drop_first(), entries.drop_first());
        assert(seq![entries[0]] + entries.drop_first() =~= entries);
    } else {
        assert(entries =~= Seq::<RepoV>::empty());
    }
}

proof fn lemma_entries_of_fail(items: Seq<serde_json::Value>, j: int)
    requires
        0 <= j < items.len(),
        spec_entry_of(items[j]) is None,
    ensures
        spec_entries_of(items) is None,
    decreases items.len(),
{
    if j > 0 {
        lemma_entries_of_fail(items.drop_first(), j - 1);
    }
}

/// Reads a registry document — a JSON array of `{"name", "url"}` objects —
/// into exactly the entries the text stands for; `None` exactly when the
/// document does not have that shape.
pub fn parse_registry(text: &str) -> (r: Option<Vec<Repo>>)
    ensures
        match r {
            Some(entries) => {
                &&& spec_registry_of(text@) == Some(entries@.map_values(|e: Repo| e@))
                &&& forall|i: int|
                    0 <= i < entries@.len() ==> (#[trigger] entries@[i]@.url) is Remote
            },
            None => spec_registry_of(text@) is None,
        },
{
    let doc = match parse_json(text) {
        Some(v) => v,
        None => {
            return None;
        },
    };
    let items = match json_array(&doc) {
        Some(a) => a,
        None => {
            return None;
        },
    };
    let mut entries: Vec<Repo> = Vec::new();
    let n = items.len();
    let mut i: usize = 0;
    while i < n
        invariant
            0 <= i <= n,
            n == items@.len(),
            spec_registry_of(text@) == spec_entries_of(items@),
            entries@.len() == i,
            forall|j: int| 0 <= j < i ==> spec_entry_of(#[trigger] items@[j]) == Some(entries@[j]@),
        decreases n - i,
    {
        let item = &items[i];
        let name = match json_get(item, "name") {
            Some(f) => match json_string(f) {
                Some(s) => s,
                None => {
                    proof {
                        assert(spec_entry_of(items@[i as int]) is None);
                        lemma_entries_of_fail(items@, i as int);
                    }
                    return None;
                },
            },
            None => {
                proof {
                    assert(spec_entry_of(items@[i as int]) is None);
                    lemma_entries_of_fail(items@, i as int);
                }
                return None;
            },
        };
        let url = match json_get(item, "url") {
            Some(f) => match json_string(f) {
                Some(s) => s,
                None => {
                    proof {
                        assert(spec_entry_of(items@[i as int]) is None);
                        lemma_entries_of_fail(items@, i as int);
                    }
                    return None;
                },
            },
            None => {
                proof {
                    assert(spec_entry_of(items@[i as int]) is None);
                    lemma_entries_of_fail(items@, i as int);
                }
                return None;
            },
        };
        proof {
            assert(spec_entry_of(items@[i as int]) == Some(
                RepoV { name: name@, url: RepoSourceV::Remote(url@) },
            ));
        }
        entries.push(Repo { name, url: RepoSource::Remote(url) });
        i += 1;
    }
    proof {
        assert forall|j: int| 0 <= j < entries@.len() implies (#[trigger] entries@[j]@.url)
            is Remote by {
            assert(spec_entry_of(items@[j]) == Some(entries@[j]@));
        };
        lemma_entries_of_all(items@, entries@.map_values(|e: Repo| e@));
    }
    Some(entries)
}

/// The outcome a registry text dictates for a requested name: text that is
/// no registry is `RegistryUnavailable`; otherwise the first entry bearing
/// the name wins, and a name listed nowhere is `NotFound`.
pub open spec fn search_outcome(name: Seq<char>, text: Seq<char>) -> Result<RepoV, ResolveError> {
    match spec_registry_of(text) {
        Some(entries) => match find_entry(entries, name) {
            Some(rep) => Ok(rep),
            None => Err(ResolveError::NotFound),
        },
        None => Err(ResolveError::RegistryUnavailable),
    }
}

/// Looks the requested name up in a fetched registry document: exactly the
/// outcome the text dictates, a found entry naming a remote source.
pub fn search(template_name: &str, registry_text: &str) -> (r: Result<Repo, ResolveError>)
    ensures
        match r {
            Ok(rep) => {
                &&& search_outcome(template_name@, registry_text@) == Ok::<RepoV, ResolveError>(
                    rep@,
                )
                &&& rep@.name == template_name@
                &&& rep@.url is Remote
            },
            Err(e) => search_outcome(template_name@, registry_text@) == Err::<
                RepoV,
                ResolveError,
            >(e),
        },
{
    let entries = match parse_registry(registry_text) {
        Some(e) => e,
        None => {
            return Err(ResolveError::RegistryUnavailable);
        },
    };
    match search_entries(template_name, &entries) {
        Some(rep) => {
            proof {
                lemma_find_entry_found(entries@.map_values(|e: Repo| e@), template_name@);
            }
            Ok(rep)
        },
        None => Err(ResolveError::NotFound),
    }
}

proof fn lemma_find_entry_found(entries: Seq<RepoV>, name: Seq<char>)
    ensures
        find_entry(entries, name) matches Some(rep) ==> rep.name == name && exists|i: int|
            0 <= i < entries.len() && entries[i] == rep,
    decreases entries.len(),
{
    if entries.len() > 0 {
        lemma_find_entry_found(entries.drop_first(), name);
        if entries[0].name != name {
            if let Some(rep) = find_entry(entries.drop_first(), name) {
                let i = choose|i: int|
                    0 <= i < entries.drop_first().len() && entries.drop_first()[i] == rep;
                assert(entries[i + 1] == rep);
            }
        }
    }
}

/// A name listed in the registry exactly once resolves to exactly that
/// entry: the lookup returns the one entry bearing the name, with the clone
/// URL the registry gave it.
pub proof fn lemma_unique_entry_found(entries: Seq<RepoV>, name: Seq<char>, i: int)
    requires
        0 <= i < entries.len(),
        entries[i].name == name,
        forall|j: int| 0 <= j < entries.len() && j != i ==> (#[trigger] entries[j]).name != name,
    ensures
        find_entry(entries, name) == Some(entries[i]),
    decreases i,
{
    if i > 0 {
        lemma_unique_entry_found(entries.drop_first(), name, i - 1);
    }
}

pub open spec fn opt_text(r: Option<&str>) -> Option<Seq<char>> {
    match r {
        Some(t) => Some(t@),
        None => None,
    }
}

/// The outcome resolution dictates for a name: the local cache wins
/// unconditionally; otherwise the registry text decides as `search_outcome`
/// says, an unfetched registry being unavailable.
pub open spec fn resolve_outcome(
    name: Seq<char>,
    local_dir_exists: bool,
    registry: Option<Seq<char>>,
) -> Result<RepoV, ResolveError> {
    if local_dir_exists {
        Ok(RepoV { name, url: RepoSourceV::Local })
    } else {
        match registry {
            Some(text) => search_outcome(name, text),
            None => Err(ResolveError::RegistryUnavailable),
        }
    }
}

/// Resolves a template name: exactly the outcome `resolve_outcome` dictates.
/// The local cache always wins: when a directory for the name exists, the
/// result is the local source, whatever the registry holds — even an
/// unreachable registry (`registry_text` of `None`) cannot get in the way,
/// so no registry fetch is needed at all.  Only a name with no local
/// directory goes to the registry: the first entry bearing it wins, a name
/// listed nowhere is `NotFound`, and an unreachable or unparseable registry
/// is `RegistryUnavailable`.
pub fn resolve(name: &str, local_dir_exists: bool, registry_text: Option<&str>) -> (r: Result<
    Repo,
    ResolveError,
>)
    ensures
        match r {
            Ok(rep) => {
                &&& resolve_outcome(name@, local_dir_exists, opt_text(registry_text)) == Ok::<
                    RepoV,
                    ResolveError,
                >(rep@)
                &&& rep@.name == name@
            },
            Err(e) => resolve_outcome(name@, local_dir_exists, opt_text(registry_text)) == Err::<
                RepoV,
                ResolveError,
            >(e),
        },
        local_dir_exists ==> (r matches Ok(rep) && rep@ == (RepoV {
            name: name@,
            url: RepoSourceV::Local,
        })),
        !local_dir_exists ==> (r matches Ok(rep) ==> rep@.url is Remote),
{
    if local_dir_exists {
        return Ok(Repo::new(name, RepoSource::Local));
    }
    match registry_text {
        Some(text) => search(name, text),
        None => Err(ResolveError::RegistryUnavailable),
    }
}

/// What must happen to the cache before a template's files can be used.
pub enum MaterializePlan {
    /// A local template: the cached directory is used as it stands (and is
    /// only read; generation works on a scratch copy).
    UseCache,
    /// A remote template: clone from the URL into the cache path, removing
    /// a stale directory first so the clone lands in a clean target.
    Fetch { remove_stale_first: bool, url: String },
}

pub ghost enum MaterializePlanV {
    UseCache,
    Fetch { remove_stale_first: bool, url: Seq<char> },
}

impl View for MaterializePlan {
    type V = MaterializePlanV;

    open spec fn view(&self) -> MaterializePlanV {
        match self {
            MaterializePlan::UseCache => MaterializePlanV::UseCache,
            MaterializePlan::Fetch { remove_stale_first, url } => MaterializePlanV::Fetch {
                remove_stale_first: *remove_stale_first,
                url: url@,
            },
        }
    }
}

/// The refresh-on-fetch policy: a local reference reuses the cache; a remote
/// reference is always cloned afresh, and an existing cache directory for it
/// is removed beforehand, never silently reused.
pub open spec fn plan_for(rep: RepoV, cache_dir_exists: bool) -> MaterializePlanV {
    match rep.url {
        RepoSourceV::Local => MaterializePlanV::UseCache,
        RepoSourceV::Remote(url) => MaterializePlanV::Fetch {
            remove_stale_first: cache_dir_exists,
            url: url,
        },
    }
}

/// Decides how to materialize a resolved template into the cache.
pub fn materialize_plan(rep: &Repo, cache_dir_exists: bool) -> (r: MaterializePlan)
    ensures
        r@ == plan_for(rep@, cache_dir_exists),
{
    match &rep.url {
        RepoSource::Local => MaterializePlan::UseCache,
        RepoSource::Remote(url) => MaterializePlan::Fetch {
            remove_stale_first: cache_dir_exists,
            url: url.clone(),
        },
    }
}

/// The idempotent-refresh property: for a remote reference the plan is the
/// same whether or not a stale cache directory pre-exists, except that a
/// stale directory is removed first — the clone's target is clean either
/// way, so the cache ends up equal to a fresh clone of the URL.
pub proof fn lemma_remote_refresh(rep: RepoV, url: Seq<char>, cache_dir_exists: bool)
    requires
        rep.url == RepoSourceV::Remote(url),
    ensures
        plan_for(rep, cache_dir_exists) == (MaterializePlanV::Fetch {
            remove_stale_first: cache_dir_exists,
            url: url,
        }),
        plan_for(rep, true) == (MaterializePlanV::Fetch { remove_stale_first: true, url: url }),
{
}

} // verus!
