//! What providers tell of their models, and the context window that follows from it.
use vstd::prelude::*;

use crate::chat::{Model, ProviderCredential, Settings};
use crate::pairs::{distinct, has_key, lemma_keys, lemma_push, lemma_update, lemma_value, map_of};
use crate::text::{
    all_ascii, all_white, find, find_str, lemma_trim_ascii, lemma_trim_end_of_more,
    lemma_trim_white, lemma_upper_ascii, lower_ascii, lower_case, lower_case_str, opt_view,
    place_of, place_of_char, same, same_ignoring_case, trim, trim_end_of, trim_end_of_str, trim_str,
    upper_ascii,
};

verus! {

// ---------------------------------------------------------------------------
// Keys
// ---------------------------------------------------------------------------

/// A base address for looking up models: its scheme, its host and its port, or all of it but the
/// slashes at its end where it has no scheme.
pub open spec fn lookup_url(base_url: Seq<char>) -> Seq<char> {
    let url = trim_end_of(base_url, '/');
    match find(url, "://"@) {
        Some(i) => {
            let rest = url.skip(i + 3);
            match place_of(rest, '/') {
                Some(k) => url.take(i + 3) + rest.take(k),
                None => url,
            }
        },
        None => url,
    }
}

fn normalize_base_url(base_url: &str) -> (r: String)
    ensures
        r@ == lookup_url(base_url@),
{
    let url = trim_end_of_str(base_url, '/');
    proof {
        reveal_strlit("://");
    }
    match find_str(url, "://") {
        Some(i) => {
            let n: usize = url.unicode_len();
            let rest = url.substring_char(i + 3, n);
            assert(rest@ =~= url@.skip(i + 3));
            match place_of_char(rest, '/') {
                Some(k) => {
                    let scheme = url.substring_char(0, i + 3);
                    let host = rest.substring_char(0, k);
                    assert(scheme@ =~= url@.take(i + 3));
                    assert(host@ =~= rest@.take(k as int));
                    let mut out = scheme.to_string();
                    out.append(host);
                    out
                },
                None => url.to_string(),
            }
        },
        None => url.to_string(),
    }
}

/// The name of a model for looking it up: without white space around it, in lower case.
pub open spec fn lookup_name(model_id: Seq<char>) -> Seq<char> {
    lower_case(trim(model_id))
}

pub fn normalize_model_id(model_id: &str) -> (r: String)
    ensures
        r@ == lookup_name(model_id@),
{
    lower_case_str(trim_str(model_id))
}

/// What the metadata of a model is kept under.
#[derive(Debug)]
pub struct ModelCacheKey {
    pub provider_id: String,
    pub base_url: String,
    pub model_id: String,
}

pub struct CacheKeyModel {
    pub provider_id: Seq<char>,
    pub base_url: Seq<char>,
    pub model_id: Seq<char>,
}

impl View for ModelCacheKey {
    type V = CacheKeyModel;

    open spec fn view(&self) -> CacheKeyModel {
        CacheKeyModel {
            provider_id: self.provider_id@,
            base_url: self.base_url@,
            model_id: self.model_id@,
        }
    }
}

pub open spec fn lookup_key(
    provider_id: Seq<char>,
    base_url: Seq<char>,
    model_id: Seq<char>,
) -> CacheKeyModel {
    CacheKeyModel {
        provider_id,
        base_url: lookup_url(base_url),
        model_id: lookup_name(model_id),
    }
}

/// Neither slashes at the end of an address nor white space around the name of a model change the
/// key, and neither does the case of an ASCII name.
pub proof fn law_key_is_consistent(
    provider_id: Seq<char>,
    base_url: Seq<char>,
    model_id: Seq<char>,
    slashes: Seq<char>,
    before: Seq<char>,
    behind: Seq<char>,
)
    requires
        forall|i: int| 0 <= i < slashes.len() ==> (#[trigger] slashes[i]) == '/',
        all_white(before),
        all_white(behind),
    ensures
        lookup_key(provider_id, base_url + slashes, before + model_id + behind) == lookup_key(
            provider_id,
            base_url,
            model_id,
        ),
        all_ascii(model_id) ==> lookup_key(
            provider_id,
            base_url + slashes,
            before + upper_ascii(model_id) + behind,
        ) == lookup_key(provider_id, base_url, model_id),
{
    lemma_trim_end_of_more(base_url, '/', slashes);
    lemma_trim_white(before, model_id, behind);
    lemma_trim_white(before, upper_ascii(model_id), behind);
    if all_ascii(model_id) {
        lemma_upper_ascii(model_id);
        lemma_trim_ascii(model_id);
        lemma_upper_ascii(trim(model_id));
    }
}

impl ModelCacheKey {
    pub fn new(provider_id: &str, base_url: &str, model_id: &str) -> (r: Self)
        ensures
            r@ == lookup_key(provider_id@, base_url@, model_id@),
    {
        ModelCacheKey {
            provider_id: provider_id.to_string(),
            base_url: normalize_base_url(base_url),
            model_id: normalize_model_id(model_id),
        }
    }

    fn is(&self, other: &ModelCacheKey) -> (r: bool)
        ensures
            r == (self@ == other@),
    {
        same(self.provider_id.as_str(), other.provider_id.as_str()) && same(
            self.base_url.as_str(),
            other.base_url.as_str(),
        ) && same(self.model_id.as_str(), other.model_id.as_str())
    }
}

// ---------------------------------------------------------------------------
// The cache
// ---------------------------------------------------------------------------

/// The metadata of a model and when it was fetched, in seconds since the epoch.
#[derive(Debug)]
pub struct CachedModelMetadata {
    pub model_id: String,
    pub provider_id: String,
    pub base_url: String,
    pub context_length: Option<u32>,
    pub display_name: Option<String>,
    pub description: Option<String>,
    pub fetched_at: u64,
}

pub struct MetadataModel {
    pub model_id: Seq<char>,
    pub provider_id: Seq<char>,
    pub base_url: Seq<char>,
    pub context_length: Option<u32>,
    pub display_name: Option<Seq<char>>,
    pub description: Option<Seq<char>>,
    pub fetched_at: u64,
}

impl View for CachedModelMetadata {
    type V = MetadataModel;

    open spec fn view(&self) -> MetadataModel {
        MetadataModel {
            model_id: self.model_id@,
            provider_id: self.provider_id@,
            base_url: self.base_url@,
            context_length: self.context_length,
            display_name: opt_view(self.display_name),
            description: opt_view(self.description),
            fetched_at: self.fetched_at,
        }
    }
}

pub open spec fn cache_views(entries: Seq<(ModelCacheKey, CachedModelMetadata)>) -> Seq<
    (CacheKeyModel, MetadataModel),
> {
    entries.map_values(|e: (ModelCacheKey, CachedModelMetadata)| (e.0@, e.1@))
}

/// Whether an entry is still valid at the time `now`.
pub open spec fn is_fresh(entry: MetadataModel, ttl: u64, now: u64) -> bool {
    entry.fetched_at + ttl > now
}

/// The entries of a cache that are still valid at the time `now`.
pub open spec fn fresh_part(
    entries: Map<CacheKeyModel, MetadataModel>,
    ttl: u64,
    now: u64,
) -> Map<CacheKeyModel, MetadataModel> {
    entries.restrict(
        Set::new(
            |k: CacheKeyModel| entries.dom().contains(k) && is_fresh(entries[k], ttl, now),
        ),
    )
}

/// Metadata of models, each entry valid for a time after it was fetched.
pub struct ModelMetadataCache {
    entries: Vec<(ModelCacheKey, CachedModelMetadata)>,
    ttl_seconds: u64,
}

impl View for ModelMetadataCache {
    type V = Map<CacheKeyModel, MetadataModel>;

    closed spec fn view(&self) -> Map<CacheKeyModel, MetadataModel> {
        map_of(cache_views(self.entries@))
    }
}

fn fresh(entry: &CachedModelMetadata, ttl: u64, now: u64) -> (r: bool)
    ensures
        r == is_fresh(entry@, ttl, now),
{
    entry.fetched_at > now || ttl > now - entry.fetched_at
}

impl ModelMetadataCache {
    #[verifier::type_invariant]
    spec fn well_formed(self) -> bool {
        distinct(cache_views(self.entries@))
    }

    /// How many seconds an entry is valid.
    pub closed spec fn ttl(self) -> u64 {
        self.ttl_seconds
    }

    /// A cache whose entries are valid for an hour.
    pub fn new() -> (r: Self)
        ensures
            r@ == Map::<CacheKeyModel, MetadataModel>::empty(),
            r.ttl() == 3600,
    {
        ModelMetadataCache { entries: Vec::new(), ttl_seconds: 3600 }
    }

    pub fn with_ttl(ttl_seconds: u64) -> (r: Self)
        ensures
            r@ == Map::<CacheKeyModel, MetadataModel>::empty(),
            r.ttl() == ttl_seconds,
    {
        ModelMetadataCache { entries: Vec::new(), ttl_seconds }
    }

    fn place_of(&self, key: &ModelCacheKey) -> (r: Option<usize>)
        ensures
            match r {
                Some(i) => i < self.entries@.len() && self.entries@[i as int].0@ == key@,
                None => !has_key(cache_views(self.entries@), key@),
            },
    {
        let ghost all = cache_views(self.entries@);
        for i in 0..self.entries.len()
            invariant
                all == cache_views(self.entries@),
                forall|j: int| 0 <= j < i ==> (#[trigger] all[j]).0 != key@,
        {
            assert(all[i as int].0 == self.entries@[i as int].0@);
            if self.entries[i].0.is(key) {
                return Some(i);
            }
        }
        None
    }

    /// The metadata under a key, where there is any that is still valid.
    pub fn get(&self, key: &ModelCacheKey, now: u64) -> (r: Option<&CachedModelMetadata>)
        ensures
            match r {
                Some(v) => self@.dom().contains(key@) && self@[key@] == v@ && is_fresh(
                    v@,
                    self.ttl(),
                    now,
                ),
                None => self@.dom().contains(key@) ==> !is_fresh(self@[key@], self.ttl(), now),
            },
    {
        let ghost all = cache_views(self.entries@);
        proof {
            use_type_invariant(self);
            lemma_keys(all, key@);
        }
        match self.place_of(key) {
            Some(i) => {
                proof {
                    lemma_value(all, i as int);
                    assert(all[i as int] == (key@, self.entries@[i as int].1@));
                }
                if fresh(&self.entries[i].1, self.ttl_seconds, now) {
                    Some(&self.entries[i].1)
                } else {
                    None
                }
            },
            None => None,
        }
    }

    /// Keeps metadata under a key, in the place of what was there.
    pub fn insert(&mut self, key: ModelCacheKey, metadata: CachedModelMetadata)
        ensures
            final(self)@ == old(self)@.insert(key@, metadata@),
            final(self).ttl() == old(self).ttl(),
    {
        proof {
            use_type_invariant(&*self);
        }
        let ghost all = cache_views(self.entries@);
        let place = self.place_of(&key);
        let mut entries: Vec<(ModelCacheKey, CachedModelMetadata)> = Vec::new();
        std::mem::swap(&mut entries, &mut self.entries);
        match place {
            Some(i) => {
                proof {
                    assert(all[i as int].0 == key@);
                    lemma_update(all, i as int, metadata@);
                }
                entries.set(i, (key, metadata));
                assert(cache_views(entries@) =~= all.update(i as int, (key@, metadata@)));
            },
            None => {
                proof {
                    lemma_push(all, (key@, metadata@));
                }
                entries.push((key, metadata));
                assert(cache_views(entries@) =~= all.push((key@, metadata@)));
            },
        }
        self.entries = entries;
    }

    /// Removes the entries that are no longer valid.
    pub fn cleanup_expired(&mut self, now: u64)
        ensures
            final(self)@ == fresh_part(old(self)@, old(self).ttl(), now),
            final(self).ttl() == old(self).ttl(),
    {
        proof {
            use_type_invariant(&*self);
        }
        let ttl: u64 = self.ttl_seconds;
        let ghost all = cache_views(self.entries@);
        let mut entries: Vec<(ModelCacheKey, CachedModelMetadata)> = Vec::new();
        std::mem::swap(&mut entries, &mut self.entries);
        let mut kept: Vec<(ModelCacheKey, CachedModelMetadata)> = Vec::new();
        assert(map_of(cache_views(kept@)) =~= fresh_part(map_of(all.take(0)), ttl, now));
        for entry in it: entries.into_iter()
            invariant
                cache_views(it.seq()) == all,
                distinct(all),
                distinct(cache_views(kept@)),
                forall|k: CacheKeyModel| #[trigger]
                    has_key(cache_views(kept@), k) ==> has_key(all.take(it.index() as int), k),
                map_of(cache_views(kept@)) == fresh_part(
                    map_of(all.take(it.index() as int)),
                    ttl,
                    now,
                ),
        {
            let ghost i = it.index() as int;
            let ghost before = cache_views(kept@);
            let ghost pair = (entry.0@, entry.1@);
            proof {
                assert(cache_views(it.seq())[i] == pair);
                assert(all.take(i + 1).drop_last() =~= all.take(i));
                assert(all.take(i + 1).last() == pair);
                assert(!has_key(all.take(i), pair.0)) by {
                    if has_key(all.take(i), pair.0) {
                        let k = choose|k: int|
                            0 <= k < i && (#[trigger] all.take(i)[k]).0 == pair.0;
                        assert(all[k].0 == all[i].0);
                    }
                }
                lemma_keys(all.take(i), pair.0);
                assert forall|k: CacheKeyModel| has_key(all.take(i), k) implies #[trigger] has_key(
                    all.take(i + 1),
                    k,
                ) by {
                    let at = choose|at: int| 0 <= at < i && (#[trigger] all.take(i)[at]).0 == k;
                    assert(all.take(i + 1)[at].0 == k);
                }
                assert(all.take(i + 1)[i].0 == pair.0);
                assert(has_key(all.take(i + 1), pair.0));
            }
            if fresh(&entry.1, ttl, now) {
                proof {
                    lemma_push(before, pair);
                }
                kept.push(entry);
                proof {
                    assert(cache_views(kept@) =~= before.push(pair));
                    assert forall|k: CacheKeyModel| #[trigger]
                        has_key(cache_views(kept@), k) implies has_key(all.take(i + 1), k) by {
                        let at = choose|at: int|
                            0 <= at < kept@.len() && (#[trigger] cache_views(kept@)[at]).0 == k;
                        if at < before.len() {
                            assert(before[at].0 == k);
                            assert(has_key(before, k));
                        }
                    }
                }
            }
            assert(map_of(cache_views(kept@)) =~= fresh_part(map_of(all.take(i + 1)), ttl, now));
        }
        assert(all.take(all.len() as int) =~= all);
        self.entries = kept;
    }

    /// Removes all entries.
    pub fn clear(&mut self)
        ensures
            final(self)@ == Map::<CacheKeyModel, MetadataModel>::empty(),
            final(self).ttl() == old(self).ttl(),
    {
        self.entries = Vec::new();
    }
}

/// What was put into the cache is found there as long as it is valid, and nothing else is touched.
pub proof fn law_cached_metadata_is_found(
    entries: Map<CacheKeyModel, MetadataModel>,
    key: CacheKeyModel,
    metadata: MetadataModel,
    other: CacheKeyModel,
    ttl: u64,
    now: u64,
)
    ensures
        ({
            let after = fresh_part(entries.insert(key, metadata), ttl, now);
            &&& after.dom().contains(key) <==> is_fresh(metadata, ttl, now)
            &&& is_fresh(metadata, ttl, now) ==> after[key] == metadata
            &&& other != key ==> (after.dom().contains(other) <==> fresh_part(
                entries,
                ttl,
                now,
            ).dom().contains(other))
            &&& other != key && after.dom().contains(other) ==> after[other] == entries[other]
        }),
{
}

/// Cleaning up at a time changes nothing of what can be found then or later.
pub proof fn law_cleanup_loses_nothing(
    entries: Map<CacheKeyModel, MetadataModel>,
    ttl: u64,
    now: u64,
    later: u64,
)
    requires
        now <= later,
    ensures
        fresh_part(fresh_part(entries, ttl, now), ttl, later) == fresh_part(entries, ttl, later),
{
    assert(fresh_part(fresh_part(entries, ttl, now), ttl, later) =~= fresh_part(
        entries,
        ttl,
        later,
    ));
}

// ---------------------------------------------------------------------------
// Fetching metadata
// ---------------------------------------------------------------------------

/// A model in a provider's list.
#[derive(Debug)]
pub struct ModelInfo {
    pub id: String,
    pub context_length: Option<u64>,
    pub display_name: Option<String>,
    pub description: Option<String>,
}

/// Whether a provider runs locally.
pub open spec fn is_local(provider_id: Seq<char>) -> bool {
    lower_ascii(provider_id) == lower_ascii("llamacpp"@)
}

/// Whether a provider is asked for its models: one that runs locally is not.
pub fn asks_provider(credential: &ProviderCredential) -> (r: bool)
    ensures
        r == !is_local(credential.provider_id@),
{
    !same_ignoring_case(credential.provider_id.as_str(), "llamacpp")
}

pub open spec fn opt_metadata(v: Option<&CachedModelMetadata>) -> Option<MetadataModel> {
    match v {
        Some(m) => Some(m@),
        None => None,
    }
}

/// The metadata in a cache that will do: it has to be valid and to know the context window.
pub open spec fn useful(
    entries: Map<CacheKeyModel, MetadataModel>,
    ttl: u64,
    key: CacheKeyModel,
    now: u64,
) -> Option<MetadataModel> {
    if entries.dom().contains(key) && is_fresh(entries[key], ttl, now)
        && entries[key].context_length is Some {
        Some(entries[key])
    } else {
        None
    }
}

/// Looks for metadata in a cache that will do.
pub fn cached_metadata<'a>(cache: &'a ModelMetadataCache, key: &ModelCacheKey, now: u64) -> (r:
    Option<&'a CachedModelMetadata>)
    ensures
        opt_metadata(r) == useful(cache@, cache.ttl(), key@, now),
{
    match cache.get(key, now) {
        Some(v) => if v.context_length.is_some() {
            Some(v)
        } else {
            None
        },
        None => None,
    }
}

/// The first model of a list that goes by the given name.
pub open spec fn find_model(models: Seq<ModelInfo>, model_id: Seq<char>) -> Option<ModelInfo>
    decreases models.len(),
{
    if models.len() == 0 {
        None
    } else if lookup_name(models[0].id@) == lookup_name(model_id) {
        Some(models[0])
    } else {
        find_model(models.drop_first(), model_id)
    }
}

pub open spec fn metadata_of(info: ModelInfo, model: Model, base_url: Seq<char>, now: u64) -> MetadataModel {
    MetadataModel {
        model_id: model.id@,
        provider_id: model.provider_id@,
        base_url,
        context_length: match info.context_length {
            Some(n) => Some(n as u32),
            None => None,
        },
        display_name: opt_view(info.display_name),
        description: opt_view(info.description),
        fetched_at: now,
    }
}

fn copy_optional(s: &Option<String>) -> (r: Option<String>)
    ensures
        opt_view(r) == opt_view(*s),
{
    match s {
        Some(t) => Some(t.clone()),
        None => None,
    }
}

/// Takes the metadata of a model out of the list that its provider gave.
pub fn metadata_of_listing(models: &Vec<ModelInfo>, model: &Model, base_url: &str, now: u64) -> (r:
    Option<CachedModelMetadata>)
    ensures
        match r {
            Some(m) => find_model(models@, model.id@) is Some && m@ == metadata_of(
                find_model(models@, model.id@)->0,
                *model,
                base_url@,
                now,
            ),
            None => find_model(models@, model.id@) is None,
        },
{
    let name = normalize_model_id(model.id.as_str());
    assert(models@.skip(0) =~= models@);
    for i in 0..models.len()
        invariant
            name@ == lookup_name(model.id@),
            find_model(models@, model.id@) == find_model(models@.skip(i as int), model.id@),
    {
        assert(models@.skip(i as int).drop_first() =~= models@.skip(i + 1));
        if same(normalize_model_id(models[i].id.as_str()).as_str(), name.as_str()) {
            let context_length: Option<u32> = match models[i].context_length {
                Some(n) => Some(n as u32),
                None => None,
            };
            return Some(
                CachedModelMetadata {
                    model_id: model.id.clone(),
                    provider_id: model.provider_id.clone(),
                    base_url: base_url.to_string(),
                    context_length,
                    display_name: copy_optional(&models[i].display_name),
                    description: copy_optional(&models[i].description),
                    fetched_at: now,
                },
            );
        }
    }
    None
}

// ---------------------------------------------------------------------------
// The context window
// ---------------------------------------------------------------------------

/// Where a context window is known from.
#[derive(Clone, Copy, PartialEq, Eq, Debug, Structural)]
pub enum ContextLengthSource {
    /// The settings of the model or of the application.
    ExplicitUserConfig,
    /// The provider's metadata of the model.
    ProviderMetadata,
    /// Nowhere.
    Fallback,
}

/// A context window and where it is known from.
#[derive(Debug)]
pub struct ContextLengthResolution {
    pub context_length: u32,
    pub source: ContextLengthSource,
}

pub open spec fn positive(n: Option<u32>) -> Option<u32> {
    match n {
        Some(v) => if v > 0 {
            Some(v)
        } else {
            None
        },
        None => None,
    }
}

/// The context window that the user has set: for the model, or else for the application.
pub open spec fn explicit_length(model: Model, settings: Settings) -> Option<u32> {
    let of_model = match model.advanced_model_settings {
        Some(s) => positive(s.context_length),
        None => None,
    };
    match of_model {
        Some(n) => Some(n),
        None => positive(settings.advanced_model_settings.context_length),
    }
}

pub fn resolve_explicit_context_length(
    model: &Model,
    _credential: &ProviderCredential,
    settings: &Settings,
) -> (r: Option<u32>)
    ensures
        r == explicit_length(*model, *settings),
{
    if let Some(s) = &model.advanced_model_settings {
        if let Some(n) = s.context_length {
            if n > 0 {
                return Some(n);
            }
        }
    }
    match settings.advanced_model_settings.context_length {
        Some(n) => if n > 0 {
            Some(n)
        } else {
            None
        },
        None => None,
    }
}

/// The context window of a model: what the user has set, else what the provider tells of it, else
/// 8192.
pub open spec fn resolution(
    model: Model,
    settings: Settings,
    metadata: Option<MetadataModel>,
) -> (u32, ContextLengthSource) {
    match explicit_length(model, settings) {
        Some(n) => (n, ContextLengthSource::ExplicitUserConfig),
        None => {
            let told = match metadata {
                Some(m) => positive(m.context_length),
                None => None,
            };
            match told {
                Some(n) => (n, ContextLengthSource::ProviderMetadata),
                None => (8192, ContextLengthSource::Fallback),
            }
        },
    }
}

/// Resolves the context window of a model. The metadata is needed only where the user has set
/// none.
pub fn resolve_context_length_with_metadata(
    model: &Model,
    credential: &ProviderCredential,
    settings: &Settings,
    metadata: Option<&CachedModelMetadata>,
) -> (r: ContextLengthResolution)
    ensures
        (r.context_length, r.source) == resolution(*model, *settings, opt_metadata(metadata)),
{
    if let Some(n) = resolve_explicit_context_length(model, credential, settings) {
        return ContextLengthResolution {
            context_length: n,
            source: ContextLengthSource::ExplicitUserConfig,
        };
    }
    if let Some(m) = metadata {
        if let Some(n) = m.context_length {
            if n > 0 {
                return ContextLengthResolution {
                    context_length: n,
                    source: ContextLengthSource::ProviderMetadata,
                };
            }
        }
    }
    ContextLengthResolution { context_length: 8192, source: ContextLengthSource::Fallback }
}

/// What is done to resolve a context window: it is known, or the provider is asked for its models,
/// which are then looked up under a key.
#[derive(Debug)]
pub enum ResolutionStep {
    Resolved(ContextLengthResolution),
    Ask(ModelCacheKey),
}

/// Whether a context window can be resolved without asking the provider.
pub open spec fn is_known(
    entries: Map<CacheKeyModel, MetadataModel>,
    ttl: u64,
    model: Model,
    credential: ProviderCredential,
    settings: Settings,
    base_url: Seq<char>,
    now: u64,
) -> bool {
    ||| explicit_length(model, settings) is Some
    ||| is_local(credential.provider_id@)
    ||| useful(
        entries,
        ttl,
        lookup_key(credential.provider_id@, base_url, model.id@),
        now,
    ) is Some
}

/// Begins to resolve the context window of a model. `base_url` is the address of the provider.
pub fn begin_resolution(
    cache: &ModelMetadataCache,
    model: &Model,
    credential: &ProviderCredential,
    settings: &Settings,
    base_url: &str,
    now: u64,
) -> (r: ResolutionStep)
    ensures
        ({
            let key = lookup_key(credential.provider_id@, base_url@, model.id@);
            let metadata = if is_local(credential.provider_id@) {
                None
            } else {
                useful(cache@, cache.ttl(), key, now)
            };
            match r {
                ResolutionStep::Resolved(known) => {
                    &&& is_known(
                        cache@,
                        cache.ttl(),
                        *model,
                        *credential,
                        *settings,
                        base_url@,
                        now,
                    )
                    &&& (known.context_length, known.source) == resolution(
                        *model,
                        *settings,
                        metadata,
                    )
                },
                ResolutionStep::Ask(k) => {
                    &&& !is_known(
                        cache@,
                        cache.ttl(),
                        *model,
                        *credential,
                        *settings,
                        base_url@,
                        now,
                    )
                    &&& k@ == key
                },
            }
        }),
{
    let explicit = resolve_explicit_context_length(model, credential, settings).is_some();
    if !asks_provider(credential) {
        return ResolutionStep::Resolved(
            resolve_context_length_with_metadata(model, credential, settings, None),
        );
    }
    let key = ModelCacheKey::new(
        credential.provider_id.as_str(),
        base_url,
        model.id.as_str(),
    );
    let cached = cached_metadata(cache, &key, now);
    if explicit || cached.is_some() {
        return ResolutionStep::Resolved(
            resolve_context_length_with_metadata(model, credential, settings, cached),
        );
    }
    ResolutionStep::Ask(key)
}

/// What a provider's list of models tells of a model, where the list was to be had.
pub open spec fn told_metadata(
    models: Option<Seq<ModelInfo>>,
    model: Model,
    base_url: Seq<char>,
    now: u64,
) -> Option<MetadataModel> {
    match models {
        Some(list) => match find_model(list, model.id@) {
            Some(info) => Some(metadata_of(info, model, base_url, now)),
            None => None,
        },
        None => None,
    }
}

pub open spec fn opt_list(models: Option<&Vec<ModelInfo>>) -> Option<Seq<ModelInfo>> {
    match models {
        Some(list) => Some(list@),
        None => None,
    }
}

/// Resolves the context window of a model with the provider's list of models, and keeps what the
/// list tells of it.
pub fn finish_resolution(
    cache: &mut ModelMetadataCache,
    key: ModelCacheKey,
    models: Option<&Vec<ModelInfo>>,
    model: &Model,
    credential: &ProviderCredential,
    settings: &Settings,
    base_url: &str,
    now: u64,
) -> (r: ContextLengthResolution)
    ensures
        final(cache)@ == (match told_metadata(opt_list(models), *model, base_url@, now) {
            Some(m) => old(cache)@.insert(key@, m),
            None => old(cache)@,
        }),
        final(cache).ttl() == old(cache).ttl(),
        (r.context_length, r.source) == resolution(
            *model,
            *settings,
            told_metadata(opt_list(models), *model, base_url@, now),
        ),
{
    let told = match models {
        Some(list) => metadata_of_listing(list, model, base_url, now),
        None => None,
    };
    match told {
        Some(m) => {
            let resolved = resolve_context_length_with_metadata(
                model,
                credential,
                settings,
                Some(&m),
            );
            cache.insert(key, m);
            resolved
        },
        None => resolve_context_length_with_metadata(model, credential, settings, None),
    }
}

/// A provider that has told the context window of a model is not asked again as long as the cache
/// is valid, and the answer stays the same.
pub proof fn law_provider_is_asked_once(
    entries: Map<CacheKeyModel, MetadataModel>,
    ttl: u64,
    models: Seq<ModelInfo>,
    model: Model,
    credential: ProviderCredential,
    settings: Settings,
    base_url: Seq<char>,
    now: u64,
    later: u64,
)
    requires
        find_model(models, model.id@) is Some,
        find_model(models, model.id@)->0.context_length is Some,
        later < now + ttl,
    ensures
        ({
            let key = lookup_key(credential.provider_id@, base_url, model.id@);
            let told = told_metadata(Some(models), model, base_url, now);
            let after = entries.insert(key, told->0);
            &&& is_known(after, ttl, model, credential, settings, base_url, later)
            &&& useful(after, ttl, key, later) == told
        }),
{
}

/// A resolved context window is never empty, and metadata cannot change what the user has set.
pub proof fn law_resolution(
    model: Model,
    settings: Settings,
    metadata: Option<MetadataModel>,
    other: Option<MetadataModel>,
)
    ensures
        resolution(model, settings, metadata).0 > 0,
        explicit_length(model, settings) is Some ==> resolution(model, settings, metadata)
            == resolution(model, settings, other),
{
}

pub fn get_provider_id(credential: &ProviderCredential) -> (r: String)
    ensures
        r@ == credential.provider_id@,
{
    credential.provider_id.clone()
}

/// The path of an address does not count for looking up models: the scheme, the host and the port
/// do.
pub proof fn law_path_does_not_count(scheme: Seq<char>, host: Seq<char>, path: Seq<char>)
    requires
        !scheme.contains(':'),
        !host.contains('/'),
        host.len() > 0,
        path.len() > 0,
        path.last() != '/',
    ensures
        lookup_url(scheme + "://"@ + host) == scheme + "://"@ + host,
        lookup_url(scheme + "://"@ + host + seq!['/'] + path) == scheme + "://"@ + host,
{
    reveal_strlit("://");
    let start = scheme + "://"@;
    let bare = start + host;
    let whole = bare + seq!['/'] + path;
    lemma_scheme_ends(scheme, host);
    lemma_scheme_ends(scheme, host + seq!['/'] + path);
    assert(start + (host + seq!['/'] + path) =~= whole);
    assert(bare.last() == host.last());
    assert(host.contains(host.last()));
    assert(whole.last() == path.last());
    let n = scheme.len() as int;
    assert(bare.skip(n + 3) =~= host);
    assert(whole.skip(n + 3) =~= host + seq!['/'] + path);
    crate::text::lemma_place_from(host, '/', 0);
    let rest = host + seq!['/'] + path;
    crate::text::lemma_place_from(rest, '/', 0);
    assert(rest[host.len() as int] == '/');
    if place_of(host, '/') is Some {
        assert(host.contains('/'));
    }
    match place_of(rest, '/') {
        Some(k) => {
            if k < host.len() {
                assert(host[k] == '/');
                assert(host.contains('/'));
            }
            assert(k == host.len());
        },
        None => {},
    }
    assert(whole.take(n + 3) + rest.take(host.len() as int) =~= bare);
}

proof fn lemma_scheme_ends(scheme: Seq<char>, rest: Seq<char>)
    requires
        !scheme.contains(':'),
    ensures
        find(scheme + "://"@ + rest, "://"@) == Some(scheme.len() as int),
{
    reveal_strlit("://");
    let all = scheme + "://"@ + rest;
    let n = scheme.len() as int;
    crate::text::lemma_find_from(all, "://"@, 0);
    assert(all.subrange(n, n + 3) =~= "://"@);
    assert(crate::text::occurs_at(all, "://"@, n));
    match find(all, "://"@) {
        Some(k) => {
            if k < n {
                assert(all.subrange(k, k + 3)[0] == ':');
                assert(scheme[k] == ':');
                assert(scheme.contains(':'));
            }
        },
        None => {},
    }
}

/// What is fetched at a time is valid from then on for as many seconds as the cache says, and not
/// a second longer.
pub proof fn law_metadata_expires(entry: MetadataModel, ttl: u64, now: u64)
    ensures
        now < entry.fetched_at + ttl ==> is_fresh(entry, ttl, now),
        now >= entry.fetched_at + ttl ==> !is_fresh(entry, ttl, now),
{
}

/// A look into the cache finds exactly what is valid, and a look for the context window only what
/// knows it too.
pub proof fn law_valid_metadata(
    entries: Map<CacheKeyModel, MetadataModel>,
    ttl: u64,
    key: CacheKeyModel,
    now: u64,
)
    ensures
        fresh_part(entries, ttl, now).dom().contains(key) <==> entries.dom().contains(key) && now
            < entries[key].fetched_at + ttl,
        fresh_part(entries, ttl, now).dom().contains(key) ==> fresh_part(entries, ttl, now)[key]
            == entries[key],
        useful(entries, ttl, key, now) is Some <==> entries.dom().contains(key) && now
            < entries[key].fetched_at + ttl && entries[key].context_length is Some,
        useful(entries, ttl, key, now) matches Some(m) ==> m == entries[key],
{
}

/// Of a provider's list the first model that goes by the name counts, wherever it stands. The list
/// tells nothing of a model that it does not name.
pub proof fn law_listed_model_is_found(
    before: Seq<ModelInfo>,
    info: ModelInfo,
    behind: Seq<ModelInfo>,
    id: Seq<char>,
)
    requires
        forall|i: int|
            0 <= i < before.len() ==> lower_case(trim(#[trigger] before[i].id@)) != lower_case(
                trim(id),
            ),
    ensures
        find_model(before, id) is None,
        lower_case(trim(info.id@)) == lower_case(trim(id)) ==> find_model(
            before + seq![info] + behind,
            id,
        ) == Some(info),
    decreases before.len(),
{
    let all = before + seq![info] + behind;
    if before.len() > 0 {
        let rest = before.drop_first();
        assert(all[0] == before[0]);
        assert(lookup_name(before[0].id@) != lookup_name(id));
        assert(all.drop_first() =~= rest + seq![info] + behind);
        assert forall|i: int| 0 <= i < rest.len() implies lower_case(trim(#[trigger] rest[i].id@))
            != lower_case(trim(id)) by {
            assert(rest[i] == before[i + 1]);
        }
        law_listed_model_is_found(rest, info, behind, id);
    } else {
        assert(all[0] == info);
    }
}

/// What is kept of a model in a list says what the list says of it, for the model, the provider
/// and the address that were asked for, and when that was.
pub proof fn law_list_tells(
    models: Seq<ModelInfo>,
    info: ModelInfo,
    model: Model,
    base_url: Seq<char>,
    now: u64,
)
    requires
        find_model(models, model.id@) == Some(info),
    ensures
        told_metadata(Some(models), model, base_url, now) matches Some(m) && {
            &&& m.model_id == model.id@
            &&& m.provider_id == model.provider_id@
            &&& m.base_url == base_url
            &&& m.fetched_at == now
            &&& info.context_length is None ==> m.context_length is None
            &&& info.context_length matches Some(n) ==> n <= u32::MAX ==> m.context_length is Some
                && m.context_length->0 == n
            &&& info.display_name matches Some(s) ==> m.display_name == Some(s@)
            &&& info.display_name is None ==> m.display_name is None
            &&& info.description matches Some(s) ==> m.description == Some(s@)
            &&& info.description is None ==> m.description is None
        },
        told_metadata(None, model, base_url, now) is None,
{
}

/// The window that is set for the model counts before that of the application, and that before
/// what the provider tells. A window of nothing counts as none, and 8192 tokens are taken where
/// there is none.
pub proof fn law_first_window_counts(
    model: Model,
    settings: Settings,
    metadata: Option<MetadataModel>,
    own: int,
    common: int,
    told: int,
)
    requires
        own == (match model.advanced_model_settings {
            Some(s) if s.context_length is Some => s.context_length->0 as int,
            _ => 0,
        }),
        common == (match settings.advanced_model_settings.context_length {
            Some(n) => n as int,
            None => 0,
        }),
        told == (match metadata {
            Some(m) if m.context_length is Some => m.context_length->0 as int,
            _ => 0,
        }),
    ensures
        own > 0 ==> resolution(model, settings, metadata).0 == own,
        own == 0 && common > 0 ==> resolution(model, settings, metadata).0 == common,
        own == 0 && common == 0 && told > 0 ==> resolution(model, settings, metadata).0 == told,
        own == 0 && common == 0 && told == 0 ==> resolution(model, settings, metadata).0 == 8192,
        resolution(model, settings, metadata).1 is ExplicitUserConfig <==> own > 0 || common > 0,
        resolution(model, settings, metadata).1 is Fallback <==> own == 0 && common == 0 && told
            == 0,
{
}

/// A provider is asked just where the user has set no window, it does not run locally, and the
/// cache does not know the window.
pub proof fn law_when_a_provider_is_asked(
    entries: Map<CacheKeyModel, MetadataModel>,
    ttl: u64,
    model: Model,
    credential: ProviderCredential,
    settings: Settings,
    base_url: Seq<char>,
    now: u64,
)
    ensures
        ({
            let key = lookup_key(credential.provider_id@, base_url, model.id@);
            let window = entries.dom().contains(key) && now < entries[key].fetched_at + ttl
                && entries[key].context_length is Some;
            &&& window ==> is_known(entries, ttl, model, credential, settings, base_url, now)
            &&& credential.provider_id@ == "llamacpp"@ || credential.provider_id@ == "LlamaCpp"@
                ==> is_known(entries, ttl, model, credential, settings, base_url, now)
            &&& explicit_length(model, settings) is Some ==> is_known(
                entries,
                ttl,
                model,
                credential,
                settings,
                base_url,
                now,
            )
            &&& !window && explicit_length(model, settings) is None && lower_ascii(
                credential.provider_id@,
            ) != "llamacpp"@ ==> !is_known(
                entries,
                ttl,
                model,
                credential,
                settings,
                base_url,
                now,
            )
        }),
{
    reveal_strlit("llamacpp");
    reveal_strlit("LlamaCpp");
    assert(lower_ascii("llamacpp"@) =~= "llamacpp"@);
    assert(lower_ascii("LlamaCpp"@) =~= "llamacpp"@);
}

} // verus!
