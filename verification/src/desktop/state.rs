//! The records of the desktop service: listed windows, recent observations and the one
//! input session that may hold the desktop. Every record belongs to one agent and task.

use vstd::prelude::*;
use super::{
    DesktopWindowInfo, DesktopWindowList, MAX_OBSERVATIONS, NativeWindow, OBSERVATION_TTL_MS, Owner,
    context_desktop_owner, desktop_owner_view, ensure_owner, owner, window_info,
};
use crate::budget::sat_sub;
use crate::context::{OperationContext, clone_opt};
use crate::error::{RuntimeError, RuntimeResult};
use crate::text::str_eq;

verus! {

/// A listed window.
#[derive(Debug, Clone)]
pub struct WindowRecord {
    pub id: String,
    pub owner: Owner,
    pub native: NativeWindow,
}

/// How an element of an observation is found again: its path in the tree and its identity.
#[derive(Debug, Clone)]
pub struct NativeElement {
    pub path: Vec<usize>,
    pub runtime_id: Vec<i32>,
    pub name: String,
    pub automation_id: String,
    pub control_type: String,
    pub class_name: String,
}

/// An observation that elements can still be acted on through.
#[derive(Debug, Clone)]
pub struct ObservationRecord {
    pub id: String,
    pub owner: Owner,
    pub native: NativeWindow,
    pub created_at_ms: u64,
    pub elements: Vec<(String, NativeElement)>,
}

/// The input session that holds the desktop.
#[derive(Debug, Clone)]
pub struct InputRecord {
    pub id: String,
    pub owner: Owner,
    pub window_id: String,
    pub native: NativeWindow,
    /// Set when the user or the caller stopped the session.
    pub cancelled: bool,
}

/// All records of the desktop service.
#[derive(Debug)]
pub struct DesktopState {
    pub windows: Vec<WindowRecord>,
    pub observations: Vec<ObservationRecord>,
    pub input: Option<InputRecord>,
}

pub type NativeView = (isize, u32, Seq<char>, Seq<char>, u32, u32, bool);

pub open spec fn native_view(n: NativeWindow) -> NativeView {
    (n.handle, n.process_id, n.title@, n.application@, n.width, n.height, n.minimized)
}

/// A copy of a native window.
pub fn copy_native(n: &NativeWindow) -> (r: NativeWindow)
    ensures
        native_view(r) == native_view(*n),
{
    NativeWindow {
        handle: n.handle,
        process_id: n.process_id,
        title: n.title.clone(),
        application: n.application.clone(),
        width: n.width,
        height: n.height,
        minimized: n.minimized,
    }
}

fn copy_owner(o: &Owner) -> (r: Owner)
    ensures
        desktop_owner_view(r) == desktop_owner_view(*o),
{
    Owner { agent_id: o.agent_id.clone(), task_id: clone_opt(&o.task_id) }
}

/// The first window listed under `id`.
pub open spec fn window_index(s: Seq<WindowRecord>, id: Seq<char>, from: int) -> Option<int>
    decreases s.len() - from,
{
    if from < 0 || from >= s.len() {
        None
    } else if s[from].id@ == id {
        Some(from)
    } else {
        window_index(s, id, from + 1)
    }
}

/// The first observation recorded under `id`.
pub open spec fn observation_index(s: Seq<ObservationRecord>, id: Seq<char>, from: int) -> Option<int>
    decreases s.len() - from,
{
    if from < 0 || from >= s.len() {
        None
    } else if s[from].id@ == id {
        Some(from)
    } else {
        observation_index(s, id, from + 1)
    }
}

/// The first element recorded under `id`.
pub open spec fn element_index(s: Seq<(String, NativeElement)>, id: Seq<char>, from: int) -> Option<int>
    decreases s.len() - from,
{
    if from < 0 || from >= s.len() {
        None
    } else if s[from].0@ == id {
        Some(from)
    } else {
        element_index(s, id, from + 1)
    }
}

/// The windows of other owners, in order.
pub open spec fn windows_of_others(s: Seq<WindowRecord>, o: (Seq<char>, Option<Seq<char>>)) -> Seq<WindowRecord>
    decreases s.len(),
{
    if s.len() == 0 {
        s
    } else if desktop_owner_view(s.last().owner) == o {
        windows_of_others(s.drop_last(), o)
    } else {
        windows_of_others(s.drop_last(), o).push(s.last())
    }
}

/// Observations younger than the time-to-live at `now_ms`, in order.
pub open spec fn fresh_observations(s: Seq<ObservationRecord>, now_ms: u64) -> Seq<ObservationRecord>
    decreases s.len(),
{
    if s.len() == 0 {
        s
    } else if sat_sub(now_ms, s.last().created_at_ms) <= OBSERVATION_TTL_MS {
        fresh_observations(s.drop_last(), now_ms).push(s.last())
    } else {
        fresh_observations(s.drop_last(), now_ms)
    }
}

/// The position of the oldest observation (the first among equally old ones).
pub open spec fn oldest_observation(s: Seq<ObservationRecord>) -> int
    decreases s.len(),
{
    if s.len() <= 1 {
        0
    } else {
        let k = oldest_observation(s.drop_last());
        if s.last().created_at_ms < s[k].created_at_ms { s.len() - 1 } else { k }
    }
}

proof fn lemma_oldest_in_range(s: Seq<ObservationRecord>)
    requires
        s.len() > 0,
    ensures
        0 <= oldest_observation(s) < s.len(),
        forall|j: int| 0 <= j < s.len() ==> s[oldest_observation(s)].created_at_ms <= #[trigger] s[j].created_at_ms,
    decreases s.len(),
{
    if s.len() > 1 {
        lemma_oldest_in_range(s.drop_last());
        let k = oldest_observation(s.drop_last());
        assert forall|j: int| 0 <= j < s.len() implies s[oldest_observation(s)].created_at_ms <= #[trigger] s[j].created_at_ms by {
            if j < s.len() - 1 {
                assert(s.drop_last()[j] == s[j]);
            }
        }
    }
}

proof fn lemma_fresh_len(s: Seq<ObservationRecord>, now_ms: u64)
    ensures
        fresh_observations(s, now_ms).len() <= s.len(),
    decreases s.len(),
{
    if s.len() > 0 {
        lemma_fresh_len(s.drop_last(), now_ms);
    }
}

/// What pruning leaves at `now_ms`: the fresh observations, minus the oldest one when
/// they fill the store.
pub open spec fn pruned(s: Seq<ObservationRecord>, now_ms: u64) -> Seq<ObservationRecord> {
    let f = fresh_observations(s, now_ms);
    if f.len() >= MAX_OBSERVATIONS {
        f.remove(oldest_observation(f))
    } else {
        f
    }
}

impl DesktopState {
    /// No windows, no observations, no input session.
    pub fn new() -> (s: Self)
        ensures
            s.windows@.len() == 0,
            s.observations@.len() == 0,
            s.input is None,
    {
        DesktopState { windows: Vec::new(), observations: Vec::new(), input: None }
    }

    /// Replaces the caller's listed windows with a fresh listing: `natives[i]` is listed
    /// under `ids[i]`. Windows of other callers are kept.
    pub fn record_windows(&mut self, context: &OperationContext, natives: Vec<NativeWindow>, ids: Vec<String>, excluded_window_count: usize) -> (r: DesktopWindowList)
        requires
            natives@.len() == ids@.len(),
        ensures
            final(self).observations == old(self).observations,
            final(self).input == old(self).input,
            final(self).windows@.len() == windows_of_others(old(self).windows@, context_desktop_owner(*context)).len() + natives@.len(),
            final(self).windows@.subrange(0, windows_of_others(old(self).windows@, context_desktop_owner(*context)).len() as int)
                == windows_of_others(old(self).windows@, context_desktop_owner(*context)),
            forall|i: int| 0 <= i < natives@.len() ==> {
                let w = #[trigger] final(self).windows@[windows_of_others(old(self).windows@, context_desktop_owner(*context)).len() + i];
                &&& w.id@ == ids@[i]@
                &&& desktop_owner_view(w.owner) == context_desktop_owner(*context)
                &&& native_view(w.native) == native_view(natives@[i])
            },
            r.windows@.len() == natives@.len(),
            forall|i: int| 0 <= i < natives@.len() ==> {
                let w = #[trigger] r.windows@[i];
                &&& w.window_id@ == ids@[i]@
                &&& w.title@ == natives@[i].title@
                &&& w.application@ == natives@[i].application@
                &&& w.process_id == natives@[i].process_id
                &&& w.width == natives@[i].width
                &&& w.height == natives@[i].height
                &&& w.minimized == natives@[i].minimized
            },
            r.excluded_window_count == excluded_window_count,
    {
        let o = owner(context);
        let ghost ov = context_desktop_owner(*context);
        let mut source: Vec<WindowRecord> = Vec::new();
        std::mem::swap(&mut source, &mut self.windows);
        let ghost orig = source@;
        let total = source.len();
        let mut kept: Vec<WindowRecord> = Vec::new();
        let mut consumed: usize = 0;
        while source.len() > 0
            invariant
                desktop_owner_view(o) == ov,
                orig == old(self).windows@,
                orig.len() == total,
                consumed <= orig.len(),
                source@ == orig.subrange(consumed as int, orig.len() as int),
                kept@ == windows_of_others(orig.subrange(0, consumed as int), ov),
            decreases source@.len(),
        {
            let w = source.remove(0);
            proof {
                assert(w == orig[consumed as int]);
                assert(orig.subrange(0, consumed + 1).drop_last() =~= orig.subrange(0, consumed as int));
            }
            if !(w.owner.agent_id == o.agent_id && crate::context::opt_eq(&w.owner.task_id, &o.task_id)) {
                kept.push(w);
            }
            consumed = consumed + 1;
            assert(source@ =~= orig.subrange(consumed as int, orig.len() as int));
        }
        assert(orig.subrange(0, orig.len() as int) =~= orig);
        let base = kept.len();
        let mut infos: Vec<DesktopWindowInfo> = Vec::new();
        let mut j: usize = 0;
        while j < natives.len()
            invariant
                natives@.len() == ids@.len(),
                j <= natives@.len(),
                base == windows_of_others(old(self).windows@, ov).len(),
                desktop_owner_view(o) == ov,
                kept@.len() == base + j,
                kept@.subrange(0, base as int) == windows_of_others(old(self).windows@, ov),
                forall|k: int| 0 <= k < j ==> {
                    let w = #[trigger] kept@[base + k];
                    &&& w.id@ == ids@[k]@
                    &&& desktop_owner_view(w.owner) == ov
                    &&& native_view(w.native) == native_view(natives@[k])
                },
                infos@.len() == j,
                forall|k: int| 0 <= k < j ==> {
                    let w = #[trigger] infos@[k];
                    &&& w.window_id@ == ids@[k]@
                    &&& w.title@ == natives@[k].title@
                    &&& w.application@ == natives@[k].application@
                    &&& w.process_id == natives@[k].process_id
                    &&& w.width == natives@[k].width
                    &&& w.height == natives@[k].height
                    &&& w.minimized == natives@[k].minimized
                },
            decreases natives.len() - j,
        {
            let info = window_info(ids[j].as_str(), &natives[j]);
            infos.push(info);
            let ghost before = kept@;
            kept.push(WindowRecord { id: ids[j].clone(), owner: copy_owner(&o), native: copy_native(&natives[j]) });
            assert(kept@.subrange(0, base as int) =~= before.subrange(0, base as int));
            j = j + 1;
        }
        self.windows = kept;
        DesktopWindowList { windows: infos, excluded_window_count }
    }
}

/// A copy of a window record.
pub fn copy_window(w: &WindowRecord) -> (r: WindowRecord)
    ensures
        r.id@ == w.id@,
        desktop_owner_view(r.owner) == desktop_owner_view(w.owner),
        native_view(r.native) == native_view(w.native),
{
    WindowRecord { id: w.id.clone(), owner: copy_owner(&w.owner), native: copy_native(&w.native) }
}

fn copy_element(e: &NativeElement) -> (r: NativeElement)
    ensures
        r.path@ == e.path@,
        r.runtime_id@ == e.runtime_id@,
        r.name@ == e.name@,
        r.automation_id@ == e.automation_id@,
        r.control_type@ == e.control_type@,
        r.class_name@ == e.class_name@,
{
    let mut path: Vec<usize> = Vec::new();
    let mut i: usize = 0;
    while i < e.path.len()
        invariant
            i <= e.path@.len(),
            path@ == e.path@.subrange(0, i as int),
        decreases e.path.len() - i,
    {
        path.push(e.path[i]);
        i = i + 1;
    }
    let mut runtime_id: Vec<i32> = Vec::new();
    let mut j: usize = 0;
    while j < e.runtime_id.len()
        invariant
            j <= e.runtime_id@.len(),
            runtime_id@ == e.runtime_id@.subrange(0, j as int),
        decreases e.runtime_id.len() - j,
    {
        runtime_id.push(e.runtime_id[j]);
        j = j + 1;
    }
    assert(path@ =~= e.path@);
    assert(runtime_id@ =~= e.runtime_id@);
    NativeElement {
        path,
        runtime_id,
        name: e.name.clone(),
        automation_id: e.automation_id.clone(),
        control_type: e.control_type.clone(),
        class_name: e.class_name.clone(),
    }
}

impl DesktopState {
    /// The caller's window listed under `id`; another caller's window does not exist.
    pub fn window(&self, context: &OperationContext, id: &str) -> (r: RuntimeResult<WindowRecord>)
        ensures
            match window_index(self.windows@, id@, 0) {
                None => r matches Err(e) && e.code@ == "desktop_window_not_found"@,
                Some(i) => if desktop_owner_view(self.windows@[i].owner) == context_desktop_owner(*context) {
                    r matches Ok(w) && w.id@ == id@ && native_view(w.native) == native_view(self.windows@[i].native)
                        && desktop_owner_view(w.owner) == context_desktop_owner(*context)
                } else {
                    r matches Err(e) && e.code@ == "desktop_window_not_found"@
                },
            },
    {
        let mut i: usize = 0;
        while i < self.windows.len()
            invariant
                i <= self.windows@.len(),
                window_index(self.windows@, id@, 0) == window_index(self.windows@, id@, i as int),
            decreases self.windows.len() - i,
        {
            if str_eq(self.windows[i].id.as_str(), id) {
                let w = &self.windows[i];
                ensure_owner(&w.owner, context, "desktop_window_not_found")?;
                return Ok(copy_window(w));
            }
            i = i + 1;
        }
        Err(RuntimeError::new("desktop_window_not_found", "window was not found; list windows again"))
    }

    /// Drops observations older than the time-to-live, then the oldest one if the store
    /// is full, so that a new observation fits.
    pub fn prune_observations(&mut self, now_ms: u64)
        ensures
            final(self).windows == old(self).windows,
            final(self).input == old(self).input,
            final(self).observations@ == pruned(old(self).observations@, now_ms),
            old(self).observations@.len() <= MAX_OBSERVATIONS ==> final(self).observations@.len() < MAX_OBSERVATIONS,
    {
        proof {
            lemma_fresh_len(self.observations@, now_ms);
        }
        let mut source: Vec<ObservationRecord> = Vec::new();
        std::mem::swap(&mut source, &mut self.observations);
        let ghost orig = source@;
        let total = source.len();
        let mut kept: Vec<ObservationRecord> = Vec::new();
        let mut consumed: usize = 0;
        while source.len() > 0
            invariant
                orig == old(self).observations@,
                orig.len() == total,
                consumed <= orig.len(),
                source@ == orig.subrange(consumed as int, orig.len() as int),
                kept@ == fresh_observations(orig.subrange(0, consumed as int), now_ms),
            decreases source@.len(),
        {
            let o = source.remove(0);
            proof {
                assert(o == orig[consumed as int]);
                assert(orig.subrange(0, consumed + 1).drop_last() =~= orig.subrange(0, consumed as int));
            }
            if now_ms.saturating_sub(o.created_at_ms) <= OBSERVATION_TTL_MS {
                kept.push(o);
            }
            consumed = consumed + 1;
            assert(source@ =~= orig.subrange(consumed as int, orig.len() as int));
        }
        assert(orig.subrange(0, orig.len() as int) =~= orig);
        if kept.len() >= MAX_OBSERVATIONS {
            let ghost f = kept@;
            let mut k: usize = 0;
            let mut m: usize = 1;
            while m < kept.len()
                invariant
                    f == kept@,
                    f.len() >= MAX_OBSERVATIONS,
                    1 <= m <= f.len(),
                    k as int == oldest_observation(f.subrange(0, m as int)),
                    k < m,
                decreases kept.len() - m,
            {
                proof {
                    assert(f.subrange(0, m + 1).drop_last() =~= f.subrange(0, m as int));
                    lemma_oldest_in_range(f.subrange(0, m as int));
                }
                if kept[m].created_at_ms < kept[k].created_at_ms {
                    k = m;
                }
                m = m + 1;
            }
            assert(f.subrange(0, f.len() as int) =~= f);
            kept.remove(k);
        }
        self.observations = kept;
    }

    /// Records an observation of the caller's window, after pruning.
    pub fn record_observation(&mut self, context: &OperationContext, native: NativeWindow, now_ms: u64, id: &str, elements: Vec<(String, NativeElement)>)
        ensures
            final(self).windows == old(self).windows,
            final(self).input == old(self).input,
            final(self).observations@.len() == pruned(old(self).observations@, now_ms).len() + 1,
            final(self).observations@.drop_last() == pruned(old(self).observations@, now_ms),
            final(self).observations@.last().id@ == id@,
            desktop_owner_view(final(self).observations@.last().owner) == context_desktop_owner(*context),
            final(self).observations@.last().native == native,
            final(self).observations@.last().created_at_ms == now_ms,
            final(self).observations@.last().elements == elements,
            old(self).observations@.len() <= MAX_OBSERVATIONS ==> final(self).observations@.len() <= MAX_OBSERVATIONS,
    {
        self.prune_observations(now_ms);
        let ghost before = self.observations@;
        self.observations.push(ObservationRecord { id: id.to_owned(), owner: owner(context), native, created_at_ms: now_ms, elements });
        assert(self.observations@.drop_last() =~= before);
    }

    /// Takes the element `element_id` of the caller's observation `observation_id` for one
    /// action. The observation is used up: a second action needs a new observation.
    pub fn take_element(&mut self, context: &OperationContext, observation_id: &str, element_id: &str, now_ms: u64) -> (r: RuntimeResult<(NativeWindow, NativeElement)>)
        ensures
            final(self).windows == old(self).windows,
            final(self).input == old(self).input,
            match observation_index(old(self).observations@, observation_id@, 0) {
                None => r matches Err(e) && e.code@ == "desktop_observation_not_found"@ && final(self).observations == old(self).observations,
                Some(i) => {
                    let o = old(self).observations@[i];
                    if desktop_owner_view(o.owner) != context_desktop_owner(*context) {
                        r matches Err(e) && e.code@ == "desktop_observation_not_found"@ && final(self).observations == old(self).observations
                    } else if sat_sub(now_ms, o.created_at_ms) > OBSERVATION_TTL_MS {
                        r matches Err(e) && e.code@ == "desktop_observation_stale"@ && final(self).observations == old(self).observations
                    } else {
                        match element_index(o.elements@, element_id@, 0) {
                            None => r matches Err(e) && e.code@ == "desktop_element_not_found"@ && final(self).observations == old(self).observations,
                            Some(k) => {
                                &&& r matches Ok((n, el)) && native_view(n) == native_view(o.native)
                                    && el.path@ == o.elements@[k].1.path@ && el.runtime_id@ == o.elements@[k].1.runtime_id@
                                    && el.name@ == o.elements@[k].1.name@ && el.automation_id@ == o.elements@[k].1.automation_id@
                                    && el.control_type@ == o.elements@[k].1.control_type@ && el.class_name@ == o.elements@[k].1.class_name@
                                &&& final(self).observations@ == old(self).observations@.remove(i)
                            },
                        }
                    }
                },
            },
    {
        let mut i: usize = 0;
        while i < self.observations.len()
            invariant
                i <= self.observations@.len(),
                observation_index(self.observations@, observation_id@, 0) == observation_index(self.observations@, observation_id@, i as int),
            ensures
                i <= self.observations@.len(),
                observation_index(self.observations@, observation_id@, 0) == (if i < self.observations@.len() { Some(i as int) } else { None }),
            decreases self.observations.len() - i,
        {
            if str_eq(self.observations[i].id.as_str(), observation_id) {
                break;
            }
            i = i + 1;
        }
        if i == self.observations.len() {
            return Err(RuntimeError::new("desktop_observation_not_found", "observation is stale or was not found"));
        }
        let o = &self.observations[i];
        ensure_owner(&o.owner, context, "desktop_observation_not_found")?;
        if now_ms.saturating_sub(o.created_at_ms) > OBSERVATION_TTL_MS {
            return Err(RuntimeError::new("desktop_observation_stale", "observation expired; observe the window again"));
        }
        let mut k: usize = 0;
        while k < o.elements.len()
            invariant
                k <= o.elements@.len(),
                element_index(o.elements@, element_id@, 0) == element_index(o.elements@, element_id@, k as int),
            ensures
                k <= o.elements@.len(),
                element_index(o.elements@, element_id@, 0) == (if k < o.elements@.len() { Some(k as int) } else { None }),
            decreases o.elements.len() - k,
        {
            if str_eq(o.elements[k].0.as_str(), element_id) {
                break;
            }
            k = k + 1;
        }
        if k == o.elements.len() {
            return Err(RuntimeError::new("desktop_element_not_found", "element was not found in that observation"));
        }
        let element = copy_element(&o.elements[k].1);
        let native = copy_native(&o.native);
        self.observations.remove(i);
        Ok((native, element))
    }

    /// Makes room for a new input session: with none active nothing changes; a session the
    /// user already stopped is removed and handed back to be torn down; a running session
    /// keeps the desktop and the new one is refused.
    pub fn input_begin(&mut self) -> (r: RuntimeResult<Option<InputRecord>>)
        ensures
            final(self).windows == old(self).windows,
            final(self).observations == old(self).observations,
            match old(self).input {
                None => r matches Ok(None) && final(self).input is None,
                Some(rec) => if rec.cancelled {
                    r == Ok::<Option<InputRecord>, RuntimeError>(Some(rec)) && final(self).input is None
                } else {
                    r matches Err(e) && e.code@ == "busy"@ && final(self).input == old(self).input
                },
            },
    {
        match &self.input {
            None => Ok(None),
            Some(rec) => {
                if rec.cancelled {
                    let taken = self.input.take();
                    Ok(taken)
                } else {
                    Err(RuntimeError::busy("another desktop input session is active"))
                }
            },
        }
    }

    /// Records the input session that now holds the desktop.
    pub fn input_started(&mut self, context: &OperationContext, id: &str, window_id: &str, native: NativeWindow)
        ensures
            final(self).windows == old(self).windows,
            final(self).observations == old(self).observations,
            final(self).input matches Some(rec) && rec.id@ == id@ && rec.window_id@ == window_id@
                && desktop_owner_view(rec.owner) == context_desktop_owner(*context) && rec.native == native && !rec.cancelled,
    {
        self.input = Some(InputRecord { id: id.to_owned(), owner: owner(context), window_id: window_id.to_owned(), native, cancelled: false });
    }

    /// The caller's running input session `id`: its window and window id.
    pub fn input_access(&self, context: &OperationContext, id: &str) -> (r: RuntimeResult<(NativeWindow, String)>)
        ensures
            match self.input {
                None => r matches Err(e) && e.code@ == "desktop_input_session_not_found"@,
                Some(rec) => if rec.id@ != id@ || desktop_owner_view(rec.owner) != context_desktop_owner(*context) {
                    r matches Err(e) && e.code@ == "desktop_input_session_not_found"@
                } else if rec.cancelled {
                    r matches Err(e) && e.code@ == "desktop_input_stopped"@
                } else {
                    r matches Ok((n, w)) && native_view(n) == native_view(rec.native) && w@ == rec.window_id@
                },
            },
    {
        let rec = match &self.input {
            Some(rec) => rec,
            None => return Err(RuntimeError::new("desktop_input_session_not_found", "input session was not found")),
        };
        if !str_eq(rec.id.as_str(), id) {
            return Err(RuntimeError::new("desktop_input_session_not_found", "input session was not found"));
        }
        ensure_owner(&rec.owner, context, "desktop_input_session_not_found")?;
        if rec.cancelled {
            return Err(RuntimeError::new("desktop_input_stopped", "desktop input was stopped by the user"));
        }
        Ok((copy_native(&rec.native), rec.window_id.clone()))
    }

    /// Marks the running input session as stopped (the user pressed Escape or switched away).
    pub fn stop_input(&mut self)
        ensures
            final(self).windows == old(self).windows,
            final(self).observations == old(self).observations,
            match old(self).input {
                None => final(self).input is None,
                Some(rec) => final(self).input == Some(InputRecord { cancelled: true, ..rec }),
            },
    {
        if let Some(rec) = &mut self.input {
            rec.cancelled = true;
        }
    }

    /// Ends the caller's input session `id`: it is removed, marked stopped and handed back
    /// to be torn down.
    pub fn input_end(&mut self, context: &OperationContext, id: &str) -> (r: RuntimeResult<InputRecord>)
        ensures
            final(self).windows == old(self).windows,
            final(self).observations == old(self).observations,
            match old(self).input {
                None => r matches Err(e) && e.code@ == "desktop_input_session_not_found"@ && final(self).input is None,
                Some(rec) => if rec.id@ != id@ || desktop_owner_view(rec.owner) != context_desktop_owner(*context) {
                    r matches Err(e) && e.code@ == "desktop_input_session_not_found"@ && final(self).input == old(self).input
                } else {
                    r == Ok::<InputRecord, RuntimeError>(InputRecord { cancelled: true, ..rec }) && final(self).input is None
                },
            },
    {
        match &self.input {
            None => return Err(RuntimeError::new("desktop_input_session_not_found", "input session was not found")),
            Some(rec) => {
                if !str_eq(rec.id.as_str(), id) {
                    return Err(RuntimeError::new("desktop_input_session_not_found", "input session was not found"));
                }
                ensure_owner(&rec.owner, context, "desktop_input_session_not_found")?;
            },
        }
        match self.input.take() {
            Some(mut rec) => {
                rec.cancelled = true;
                Ok(rec)
            },
            None => Err(RuntimeError::new("desktop_input_session_not_found", "input session was not found")),
        }
    }
}

/// At most one input session holds the desktop: while a session runs, starting another
/// one is refused and leaves the running session in place.
pub proof fn lemma_single_input_session(
    s0: DesktopState,
    s1: DesktopState,
    r: RuntimeResult<Option<InputRecord>>,
)
    requires
        s0.input matches Some(rec) && !rec.cancelled,
        match s0.input {
            None => r matches Ok(None) && s1.input is None,
            Some(rec) => if rec.cancelled {
                r == Ok::<Option<InputRecord>, RuntimeError>(Some(rec)) && s1.input is None
            } else {
                r matches Err(e) && e.code@ == "busy"@ && s1.input == s0.input
            },
        },
    ensures
        r is Err,
        s1.input == s0.input,
{
}

} // verus!
