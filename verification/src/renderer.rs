//! The decisions the renderer takes: which monitors get a window, how a
//! window is titled and which surface format it uses, and what a window
//! event leads to.

use crate::config::Config;
use crate::source_selector::{contains_monitor, MonitorId, SourceSelector};
use vstd::prelude::*;

verus! {

/// Whether rendering waits for every screen to have a new frame: as the
/// configuration says, and not when there is no configuration.
pub fn synchronize_screens(config: Option<&Config>) -> (synchronize: bool)
    ensures
        synchronize == (match config {
            Some(c) => c.synchronize_screens,
            None => false,
        }),
{
    match config {
        Some(c) => c.synchronize_screens,
        None => false,
    }
}

/// Whether the monitor at position `i` of those available gets a window:
/// it is configured, no window is open on it yet, and no earlier available
/// monitor has its name (that one gets the window).
pub open spec fn gets_window(
    selector: &SourceSelector,
    available: Seq<MonitorId>,
    launched: Seq<MonitorId>,
    i: int,
) -> bool {
    &&& 0 <= i < available.len()
    &&& selector.monitors().contains_key(available[i]@.0)
    &&& forall|j: int| 0 <= j < launched.len() ==> #[trigger] launched[j]@.0 != available[i]@.0
    &&& forall|j: int| 0 <= j < i ==> #[trigger] available[j]@.0 != available[i]@.0
}

/// The available monitors that get a window, by position, in the order they
/// are available; `launched` are the monitors that already have one.
pub fn monitors_to_launch(
    selector: &SourceSelector,
    available: &Vec<MonitorId>,
    launched: &Vec<MonitorId>,
) -> (launch: Vec<usize>)
    ensures
        forall|k: int| 0 <= k < launch.len() ==> #[trigger] gets_window(selector, available@, launched@, launch[k] as int),
        forall|i: int| #[trigger] gets_window(selector, available@, launched@, i)
            ==> exists|k: int| 0 <= k < launch.len() && launch[k] == i,
        forall|k: int, l: int| 0 <= k < l < launch.len() ==> launch[k] < launch[l],
{
    let mut launch: Vec<usize> = Vec::new();
    // the monitors given a window in this pass, in the order of `launch`
    let mut opened: Vec<MonitorId> = Vec::new();
    let mut i: usize = 0;
    while i < available.len()
        invariant
            i <= available.len(),
            opened.len() == launch.len(),
            forall|k: int| 0 <= k < launch.len() ==> #[trigger] launch[k] < i,
            forall|k: int| 0 <= k < launch.len() ==> #[trigger] opened[k]@ == available[launch[k] as int]@,
            forall|k: int| 0 <= k < launch.len() ==> #[trigger] gets_window(selector, available@, launched@, launch[k] as int),
            forall|j: int| 0 <= j < i && #[trigger] gets_window(selector, available@, launched@, j)
                ==> exists|k: int| 0 <= k < launch.len() && launch[k] == j,
            forall|j: int| #![trigger available[j]] 0 <= j < i && selector.monitors().contains_key(available[j]@.0)
                && (forall|l: int| 0 <= l < launched.len() ==> #[trigger] launched[l]@.0 != available[j]@.0)
                ==> exists|k: int| 0 <= k < opened.len() && #[trigger] opened[k]@.0 == available[j]@.0,
            forall|k: int, l: int| 0 <= k < l < launch.len() ==> launch[k] < launch[l],
        decreases available.len() - i,
    {
        let monitor_id = &available[i];
        if selector.is_configured(monitor_id) && !contains_monitor(launched, monitor_id)
            && !contains_monitor(&opened, monitor_id) {
            let ghost before = launch@;
            let ghost opened_before = opened@;
            proof {
                assert forall|j: int| 0 <= j < i implies #[trigger] available[j]@.0 != available[i as int]@.0 by {
                    if available[j]@.0 == available[i as int]@.0 {
                        assert(selector.monitors().contains_key(available[j]@.0));
                        let k = choose|k: int| 0 <= k < opened.len() && #[trigger] opened[k]@.0 == available[j]@.0;
                        assert(opened[k]@.0 == monitor_id@.0);
                    }
                }
                assert(gets_window(selector, available@, launched@, i as int));
            }
            launch.push(i);
            opened.push(monitor_id.clone());
            proof {
                assert forall|k: int| 0 <= k < launch.len() implies #[trigger] opened[k]@ == available[launch[k] as int]@ by {
                    if k < before.len() {
                        assert(opened[k] == opened_before[k]);
                        assert(launch[k] == before[k]);
                    }
                }
                assert forall|j: int| 0 <= j < i + 1 && #[trigger] gets_window(selector, available@, launched@, j)
                    implies exists|k: int| 0 <= k < launch.len() && launch[k] == j by {
                    if j < i {
                        let k = choose|k: int| 0 <= k < before.len() && before[k] == j;
                        assert(launch[k] == j);
                    } else {
                        assert(launch[launch.len() - 1] == j);
                    }
                }
                assert forall|j: int| #![trigger available[j]] 0 <= j < i + 1 && selector.monitors().contains_key(available[j]@.0)
                    && (forall|l: int| 0 <= l < launched.len() ==> #[trigger] launched[l]@.0 != available[j]@.0)
                    implies exists|k: int| 0 <= k < opened.len() && #[trigger] opened[k]@.0 == available[j]@.0 by {
                    if j < i {
                        let k = choose|k: int| 0 <= k < opened_before.len() && #[trigger] opened_before[k]@.0 == available[j]@.0;
                        assert(opened[k] == opened_before[k]);
                    } else {
                        assert(opened[opened.len() - 1]@.0 == available[j]@.0);
                    }
                }
            }
        } else {
            proof {
                if gets_window(selector, available@, launched@, i as int) {
                    // an earlier monitor of this name was given the window
                    let k = choose|k: int| 0 <= k < opened.len() && #[trigger] opened[k]@.0 == monitor_id@.0;
                    assert(available[launch[k] as int]@.0 == available[i as int]@.0);
                    assert(false);
                }
            }
        }
        i = i + 1;
    }
    launch
}

/// Over two passes: once the monitors a pass chose have their windows, a
/// second pass over the same available monitors and configuration opens no
/// window; and when no two monitors with a window shared a name before the
/// first pass, none do after it, so a monitor name never gets two windows.
pub proof fn lemma_second_pass_opens_nothing(
    selector: &SourceSelector,
    available: Seq<MonitorId>,
    launched: Seq<MonitorId>,
    launch: Seq<usize>,
    relaunched: Seq<MonitorId>,
)
    requires
        forall|k: int| 0 <= k < launch.len() ==> #[trigger] gets_window(selector, available, launched, launch[k] as int),
        forall|i: int| #[trigger] gets_window(selector, available, launched, i)
            ==> exists|k: int| 0 <= k < launch.len() && launch[k] == i,
        forall|k: int, l: int| 0 <= k < l < launch.len() ==> launch[k] < launch[l],
        relaunched.len() == launched.len() + launch.len(),
        forall|j: int| 0 <= j < launched.len() ==> #[trigger] relaunched[j]@.0 == launched[j]@.0,
        forall|k: int| 0 <= k < launch.len()
            ==> #[trigger] relaunched[launched.len() + k]@.0 == available[launch[k] as int]@.0,
    ensures
        forall|i: int| !#[trigger] gets_window(selector, available, relaunched, i),
        (forall|j: int, l: int| 0 <= j < l < launched.len() ==> launched[j]@.0 != launched[l]@.0)
            ==> forall|j: int, l: int| 0 <= j < l < relaunched.len() ==> relaunched[j]@.0 != relaunched[l]@.0,
{
    let n = launched.len() as int;
    assert forall|i: int| !#[trigger] gets_window(selector, available, relaunched, i) by {
        if gets_window(selector, available, relaunched, i) {
            assert forall|j: int| 0 <= j < launched.len() implies #[trigger] launched[j]@.0 != available[i]@.0 by {
                assert(relaunched[j]@.0 == launched[j]@.0);
            }
            assert(gets_window(selector, available, launched, i));
            let k = choose|k: int| 0 <= k < launch.len() && launch[k] == i;
            assert(relaunched[n + k]@.0 == available[i]@.0);
        }
    }
    if forall|j: int, l: int| 0 <= j < l < launched.len() ==> launched[j]@.0 != launched[l]@.0 {
        assert forall|j: int, l: int| 0 <= j < l < relaunched.len() implies relaunched[j]@.0 != relaunched[l]@.0 by {
            if l < n {
                assert(relaunched[j]@.0 == launched[j]@.0);
                assert(relaunched[l]@.0 == launched[l]@.0);
            } else if j < n {
                let k = l - n;
                assert(relaunched[n + k]@.0 == available[launch[k] as int]@.0);
                assert(gets_window(selector, available, launched, launch[k] as int));
                assert(relaunched[j]@.0 == launched[j]@.0);
            } else {
                let (k, m) = (j - n, l - n);
                assert(relaunched[n + k]@.0 == available[launch[k] as int]@.0);
                assert(relaunched[n + m]@.0 == available[launch[m] as int]@.0);
                assert(gets_window(selector, available, launched, launch[m] as int));
                assert(launch[k] < launch[m]);
            }
        }
    }
}

/// The title of the window opened on a monitor.
pub fn window_title(monitor_id: &MonitorId) -> (title: String)
    ensures
        title@ == "NDI Client "@ + monitor_id@.0,
{
    let mut title = String::new();
    title.append("NDI Client ");
    title.append(monitor_id.name());
    title
}

/// The surface format a window uses, given for each format the surface
/// supports whether it is an sRGB format: the first sRGB format, or the
/// first format when none is.
pub fn choose_surface_format(is_srgb: &Vec<bool>) -> (index: usize)
    requires
        is_srgb.len() > 0,
    ensures
        index < is_srgb.len(),
        (exists|i: int| 0 <= i < is_srgb.len() && #[trigger] is_srgb[i]) ==> is_srgb[index as int]
            && forall|j: int| 0 <= j < index ==> !#[trigger] is_srgb[j],
        !(exists|i: int| 0 <= i < is_srgb.len() && #[trigger] is_srgb[i]) ==> index == 0,
{
    let mut i: usize = 0;
    while i < is_srgb.len()
        invariant
            i <= is_srgb.len(),
            forall|j: int| 0 <= j < i ==> !#[trigger] is_srgb[j],
        decreases is_srgb.len() - i,
    {
        if is_srgb[i] {
            return i;
        }
        i = i + 1;
    }
    0
}

/// What happened to a window, as far as the renderer cares.
pub enum WindowInput {
    /// The window's inner size changed.
    Resized { width: u32, height: u32 },
    /// The window is asked to draw itself.
    RedrawRequested,
    /// A key was pressed or released; `escape` tells whether it is Escape.
    KeyboardInput { escape: bool },
    /// Anything else.
    Other,
}

/// What the renderer does about a window event.
#[derive(PartialEq, Eq, Structural, Debug)]
pub enum WindowAction {
    /// Resize the screen's renderer to this size.
    Resize { width: u32, height: u32 },
    /// Draw the screen's latest frame.
    Redraw,
    /// Leave the event loop.
    Exit,
    /// Nothing.
    Ignore,
}

/// The action for an event of a window; `has_screen` tells whether the
/// window is one of the screens the renderer opened. Escape exits whatever
/// the window; a resize to an empty size is ignored.
pub fn window_event_action(input: WindowInput, has_screen: bool) -> (action: WindowAction)
    ensures
        action == (match input {
            WindowInput::Resized { width, height } => if has_screen && width > 0 && height > 0 {
                WindowAction::Resize { width, height }
            } else {
                WindowAction::Ignore
            },
            WindowInput::RedrawRequested => if has_screen {
                WindowAction::Redraw
            } else {
                WindowAction::Ignore
            },
            WindowInput::KeyboardInput { escape } => if escape {
                WindowAction::Exit
            } else {
                WindowAction::Ignore
            },
            WindowInput::Other => WindowAction::Ignore,
        }),
{
    match input {
        WindowInput::Resized { width, height } => {
            if has_screen && width > 0 && height > 0 {
                WindowAction::Resize { width, height }
            } else {
                WindowAction::Ignore
            }
        },
        WindowInput::RedrawRequested => {
            if has_screen {
                WindowAction::Redraw
            } else {
                WindowAction::Ignore
            }
        },
        WindowInput::KeyboardInput { escape } => {
            if escape {
                WindowAction::Exit
            } else {
                WindowAction::Ignore
            }
        },
        WindowInput::Other => WindowAction::Ignore,
    }
}

} // verus!
