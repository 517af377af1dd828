//! Settings: defaults for all calls, and others for a scope.

use vstd::prelude::*;

verus! {

/// Which cache calls use. `H` is a handle to something that is shared.
#[derive(Debug, Clone)]
pub enum CacheSetting<H> {
    /// A particular cache.
    Instance(H),
    /// No cache.
    Disabled,
}

/// Settings of calls. `H` is a handle to something that is shared.
#[derive(Debug)]
pub struct Settings<H> {
    pub lm: Option<H>,
    pub adapter: Option<H>,
    pub trace: Option<H>,
    /// Which cache calls use; the shared one where this is not set.
    pub cache: Option<CacheSetting<H>>,
    pub usage_tracker: Option<H>,
    /// Calls do not go into the history.
    pub disable_history: bool,
    /// How many calls the history holds at most.
    pub max_history_size: usize,
    /// Where the parts of a stream go.
    pub send_stream: Option<H>,
    pub stream_listeners: Option<Vec<H>>,
    /// The predictor that is making a call.
    pub caller_predict_id: Option<usize>,
}

impl<H> Settings<H> {
    /// Nothing is set.
    pub open spec fn unset() -> Settings<H> {
        Settings {
            lm: None,
            adapter: None,
            trace: None,
            cache: None,
            usage_tracker: None,
            disable_history: false,
            max_history_size: 10000,
            send_stream: None,
            stream_listeners: None,
            caller_predict_id: None,
        }
    }

    /// Nothing is set.
    pub fn new() -> (r: Self)
        ensures
            r == Settings::<H>::unset(),
    {
        Settings {
            lm: None,
            adapter: None,
            trace: None,
            cache: None,
            usage_tracker: None,
            disable_history: false,
            max_history_size: 10000,
            send_stream: None,
            stream_listeners: None,
            caller_predict_id: None,
        }
    }

    /// The settings with a model.
    pub fn with_lm(self, lm: H) -> (r: Self)
        ensures
            r == (Settings { lm: Some(lm), ..self }),
    {
        Settings { lm: Some(lm), ..self }
    }

    /// The settings with an adapter.
    pub fn with_adapter(self, adapter: H) -> (r: Self)
        ensures
            r == (Settings { adapter: Some(adapter), ..self }),
    {
        Settings { adapter: Some(adapter), ..self }
    }

    /// The settings with a place for traces.
    pub fn with_trace(self, trace: H) -> (r: Self)
        ensures
            r == (Settings { trace: Some(trace), ..self }),
    {
        Settings { trace: Some(trace), ..self }
    }

    /// The settings with a cache.
    pub fn with_cache(self, cache: H) -> (r: Self)
        ensures
            r == (Settings { cache: Some(CacheSetting::Instance(cache)), ..self }),
    {
        Settings { cache: Some(CacheSetting::Instance(cache)), ..self }
    }

    /// The settings without a cache.
    pub fn with_cache_disabled(self) -> (r: Self)
        ensures
            r == (Settings { cache: Some(CacheSetting::Disabled), ..self }),
    {
        Settings { cache: Some(CacheSetting::Disabled), ..self }
    }

    /// The settings with a usage tracker.
    pub fn with_usage_tracker(self, tracker: H) -> (r: Self)
        ensures
            r == (Settings { usage_tracker: Some(tracker), ..self }),
    {
        Settings { usage_tracker: Some(tracker), ..self }
    }

    /// The settings with the history on or off.
    pub fn with_disable_history(self, disable: bool) -> (r: Self)
        ensures
            r == (Settings { disable_history: disable, ..self }),
    {
        Settings { disable_history: disable, ..self }
    }

    /// The settings with a bound on the history.
    pub fn with_max_history_size(self, size: usize) -> (r: Self)
        ensures
            r == (Settings { max_history_size: size, ..self }),
    {
        Settings { max_history_size: size, ..self }
    }

    /// The settings with a place for the parts of a stream.
    pub fn with_send_stream(self, send_stream: H) -> (r: Self)
        ensures
            r == (Settings { send_stream: Some(send_stream), ..self }),
    {
        Settings { send_stream: Some(send_stream), ..self }
    }

    /// The settings with listeners on streams.
    pub fn with_stream_listeners(self, listeners: Vec<H>) -> (r: Self)
        ensures
            r == (Settings { stream_listeners: Some(listeners), ..self }),
    {
        Settings { stream_listeners: Some(listeners), ..self }
    }
}

impl<H> Default for Settings<H> {
    fn default() -> (r: Self)
        ensures
            r == Settings::<H>::unset(),
    {
        Settings::new()
    }
}

/// The settings for all calls, and those of the scopes that are open.
#[derive(Debug)]
pub struct SettingsStack<H> {
    pub global: Settings<H>,
    /// The scopes, the innermost last.
    pub scopes: Vec<Settings<H>>,
}

impl<H> SettingsStack<H> {
    /// The settings that calls go by: those of the innermost scope, or else those
    /// for all calls.
    pub open spec fn current(self) -> Settings<H> {
        if self.scopes@.len() > 0 {
            self.scopes@.last()
        } else {
            self.global
        }
    }

    /// Nothing is set.
    pub fn new() -> (r: Self)
        ensures
            r.global == Settings::<H>::unset(),
            r.scopes@.len() == 0,
    {
        SettingsStack { global: Settings::new(), scopes: Vec::new() }
    }
}

/// Sets the settings for all calls.
pub fn configure<H>(stack: &mut SettingsStack<H>, settings: Settings<H>)
    ensures
        final(stack).global == settings,
        final(stack).scopes == old(stack).scopes,
{
    stack.global = settings;
}

/// The settings that calls go by.
pub fn get_settings<H>(stack: &SettingsStack<H>) -> (r: &Settings<H>)
    ensures
        *r == stack.current(),
{
    let n: usize = stack.scopes.len();
    if n > 0 {
        &stack.scopes[n - 1]
    } else {
        &stack.global
    }
}

/// Opens a scope with its own settings.
pub fn enter_settings<H>(stack: &mut SettingsStack<H>, settings: Settings<H>)
    ensures
        final(stack).global == old(stack).global,
        final(stack).scopes@ == old(stack).scopes@.push(settings),
        final(stack).current() == settings,
{
    stack.scopes.push(settings);
}

/// Closes the innermost scope.
pub fn leave_settings<H>(stack: &mut SettingsStack<H>)
    ensures
        final(stack).global == old(stack).global,
        final(stack).scopes@ == if old(stack).scopes@.len() > 0 {
            old(stack).scopes@.drop_last()
        } else {
            old(stack).scopes@
        },
{
    let _ = stack.scopes.pop();
}

/// Forgets all settings.
pub fn reset_settings<H>(stack: &mut SettingsStack<H>)
    ensures
        final(stack).global == Settings::<H>::unset(),
        final(stack).scopes@.len() == 0,
{
    stack.scopes = Vec::new();
    stack.global = Settings::new();
}

/// Closing a scope brings back the scopes as they were before it was opened.
pub proof fn law_scope_is_undone<H>(scopes: Seq<Settings<H>>, settings: Settings<H>)
    ensures
        scopes.push(settings).drop_last() == scopes,
{
    assert(scopes.push(settings).drop_last() =~= scopes);
}

/// Which cache a call uses.
#[derive(Debug)]
pub enum CacheChoice<'a, H> {
    /// None.
    Off,
    /// A particular one.
    Given(&'a H),
    /// The shared one.
    Shared,
}

/// Which cache a call uses, by what it asks for and by the settings.
pub fn resolve_cache<'a, H>(use_cache: bool, setting: &'a Option<CacheSetting<H>>) -> (r:
    CacheChoice<'a, H>)
    ensures
        match r {
            CacheChoice::Off => !use_cache || *setting == Some(CacheSetting::<H>::Disabled),
            CacheChoice::Given(h) => use_cache && *setting == Some(CacheSetting::Instance(*h)),
            CacheChoice::Shared => use_cache && *setting is None,
        },
{
    if !use_cache {
        return CacheChoice::Off;
    }
    match setting {
        Some(CacheSetting::Disabled) => CacheChoice::Off,
        Some(CacheSetting::Instance(h)) => CacheChoice::Given(h),
        None => CacheChoice::Shared,
    }
}

} // verus!
