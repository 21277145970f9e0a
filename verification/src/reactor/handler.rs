//! The reactor's answer to every event.

use vstd::prelude::*;

use crate::collections::lists;
use crate::config::Config;
use crate::ids::{SpaceId, WindowId};
use crate::layout::commands::{command_handled, lemma_neighbour_exposed, LayoutCommand};
use crate::layout::conversion::config_set;
use crate::layout::events::{LayoutEvent, LayoutEventView};
use crate::layout::laws::{law_command_keeps_spaces, law_config_keeps_spaces};
use crate::layout::saved::{keeps, shown_of, SavedView};
use crate::layout::state::State;
use crate::layout::viewport::{in_motion, ticks};
use crate::link::{answer, ask, ask_each, grew, Link, Log, ReactorHost, Req};
use crate::reactor::discovery::{
    app_of, discovered, layout_info, lemma_told_keeps, window_noted,
};
use crate::reactor::event::{Command, Event, MouseState, ReactorCommand};
use crate::reactor::frames::frame_changed;
use crate::reactor::mouse::{mouse_down, mouse_dragged, mouse_over, mouse_up, wheel_turned};
use crate::reactor::outcome::{lemma_best_space_exposed, plain, Outcome};
use crate::reactor::placement::laid_out;
use crate::reactor::raising::{raised, told};
use crate::reactor::screens::{active_updated, best_space, window_space};
use crate::reactor::spaces::{screens_changed, screens_from, space_changed};
use crate::reactor::state::{lemma_spaces_exposed, spaces_of, AppState, Known, Reactor, Screen};
use crate::reactor::visible::{all_read, shown_now};
use crate::response::Response;

verus! {

/// The status of a program that has saved its layouts.
pub const SAVED: i32 = 0;

/// The status of a program that could not save its layouts.
pub const NOT_SAVED: i32 = 3;

/// The layout manager hears which applications run.
pub open spec fn running_told(r: Known, l: Log, r2: Known, l2: Log) -> bool {
    exists|pids: Seq<i32>| #[trigger]
        lists(pids, r.apps) && told(r, l, LayoutEventView::AppsRunningUpdated(pids), r2, l2)
}

/// A known window that became visible is added to the layout of its space.
pub open spec fn shown_added(
    r: Known,
    l: Log,
    wid: WindowId,
    r2: Known,
    l2: Log,
    outcome: Outcome,
) -> bool {
    let window = r.windows[wid];
    exists|t: Log, space: Option<SpaceId>|
        {
            &&& #[trigger] best_space(l, r.screens, window.frame_monotonic, t, space)
            &&& match space {
                Some(space) if r.apps.contains_key(wid.pid) => {
                    &&& told(
                        r,
                        t,
                        LayoutEventView::WindowAdded(
                            space,
                            wid,
                            layout_info(r, app_of(r, wid.pid), window),
                        ),
                        r2,
                        l2,
                    )
                    &&& outcome == Outcome::Settle { new: Some(wid), is_resize: false }
                },
                _ => r2 == r && l2 == t && outcome == plain(),
            }
        }
}

/// A window became visible.
pub open spec fn became_visible(
    r: Known,
    l: Log,
    wid: WindowId,
    r2: Known,
    l2: Log,
    outcome: Outcome,
) -> bool {
    if r.windows.contains_key(wid) {
        shown_added(r, l, wid, r2, l2, outcome)
    } else {
        r2 == r && l2 == l && outcome == plain()
    }
}

/// A window is gone: the mouse holds nothing, the window is forgotten.
pub open spec fn window_gone(r: Known, wid: WindowId) -> Known {
    Known {
        layout: State { resizing: None, moving: None, ..r.layout },
        in_drag: false,
        windows: r.windows.remove(wid),
        ..r
    }
}

/// The layout manager has handled a command; its response is passed on.
pub open spec fn command_run(
    r: Known,
    l: Log,
    space: Option<SpaceId>,
    command: LayoutCommand,
    r2: Known,
    l2: Log,
) -> bool {
    exists|s: State, t: Log, response: Response|
        {
            &&& #[trigger] command_handled(
                r.layout,
                l,
                space,
                spaces_of(r.screens),
                command,
                s,
                t,
                response,
            )
            &&& r2 == Known { layout: s, ..r }
            &&& raised(r2, t, response, false, l2)
        }
}

/// The layout manager gets a command for the space of the main window.
pub open spec fn command_told(r: Known, l: Log, command: LayoutCommand, r2: Known, l2: Log) -> bool {
    exists|t: Log, space: Option<SpaceId>| #[trigger]
        window_space(r, l, r.main, t, space) && command_run(r, t, space, command, r2, l2)
}

/// The requests that show the layouts of the screens.
pub open spec fn layouts_shown(layout: State, screens: Seq<Screen>) -> Seq<Req> {
    spaces_of(screens).map_values(
        |space: SpaceId| Req::ShowLayout(shown_of(layout, space, ""@, true)),
    )
}

/// What would be saved is printed.
pub open spec fn layouts_printed(r: Known, l: Log, l2: Log) -> bool {
    exists|saved: SavedView| #[trigger]
        keeps(saved, r.layout) && l2 == ask(l, l2, Req::PrintLayouts(saved))
}

/// What is kept between two runs is saved, and the program ends; its status tells
/// whether saving worked.
pub open spec fn saved_and_ended(r: Known, l: Log, l2: Log) -> bool {
    exists|saved: SavedView|
        {
            let t = ask(l, l2, Req::SaveLayouts(saved));
            &&& #[trigger] keeps(saved, r.layout)
            &&& l2 == ask(
                t,
                l2,
                Req::Exit(
                    if answer(t)->Flag_0 {
                        SAVED
                    } else {
                        NOT_SAVED
                    },
                ),
            )
        }
}

/// What a command does.
pub open spec fn command_taken(
    r: Known,
    l: Log,
    command: Command,
    r2: Known,
    l2: Log,
    outcome: Outcome,
) -> bool {
    match command {
        Command::Layout(command) => command_told(r, l, command, r2, l2) && outcome == plain(),
        Command::Metrics(command) => {
            r2 == r && l2 == ask(l, l2, Req::RunMetricsCommand(command.0)) && outcome == plain()
        },
        Command::Reactor(ReactorCommand::Debug) => {
            &&& r2 == r
            &&& l2 == ask_each(l, l2, layouts_shown(r.layout, r.screens))
            &&& outcome == plain()
        },
        Command::Reactor(ReactorCommand::Serialize) => {
            r2 == r && layouts_printed(r, l, l2) && outcome == plain()
        },
        // The last request does not return.
        Command::Reactor(ReactorCommand::SaveAndExit) => {
            r2 == r && saved_and_ended(r, l, l2) && outcome == Outcome::Done
        },
    }
}

/// What an event does, before the focus and the layout are brought up to date.
pub open spec fn event_taken(
    r: Known,
    l: Log,
    event: Event,
    r2: Known,
    l2: Log,
    outcome: Outcome,
) -> bool {
    match event {
        Event::ApplicationLaunched {
            pid,
            info,
            handle,
            is_frontmost: _,
            main_window: _,
            visible_windows,
        } => {
            &&& discovered(
                Known { apps: r.apps.insert(pid, AppState { info, handle }), ..r },
                l,
                pid,
                visible_windows@,
                r2,
                l2,
            )
            &&& outcome == plain()
        },
        Event::StartupComplete => running_told(r, l, r2, l2) && outcome == plain(),
        Event::ApplicationTerminated(pid) => {
            &&& r2 == r
            &&& l2 == if r.apps.contains_key(pid) {
                ask(l, l2, Req::TerminateApp(r.apps[pid].handle))
            } else {
                l
            }
            &&& outcome == plain()
        },
        Event::ApplicationThreadTerminated(pid) => {
            &&& told(
                Known { apps: r.apps.remove(pid), ..r },
                l,
                LayoutEventView::AppClosed(pid),
                r2,
                l2,
            )
            &&& outcome == plain()
        },
        Event::ApplicationActivated(_, _)
        | Event::ApplicationDeactivated(_)
        | Event::ApplicationGloballyActivated(_)
        | Event::ApplicationGloballyDeactivated(_)
        | Event::ApplicationMainWindowChanged(_, _, _) => {
            r2 == r && l2 == l && outcome == plain()
        },
        Event::WindowsDiscovered { pid, new, known_visible: _ } => {
            discovered(r, l, pid, new@, r2, l2) && outcome == plain()
        },
        Event::WindowCreated(wid, window, mouse_state) => {
            &&& r2 == Known {
                in_drag: r.in_drag || mouse_state == MouseState::Down,
                ..window_noted(r, wid, window)
            }
            &&& l2 == l
            &&& outcome == plain()
        },
        Event::WindowsOnScreenUpdated { pid, on_screen } => {
            &&& r2 == if pid is Some {
                shown_now(r, on_screen.visible@, on_screen.info@)
            } else {
                all_read(r, on_screen.visible@, on_screen.info@)
            }
            &&& l2 == l
            &&& outcome == plain()
        },
        Event::WindowBecameVisible(wid) => became_visible(r, l, wid, r2, l2, outcome),
        Event::WindowDestroyed(wid) => {
            &&& told(window_gone(r, wid), l, LayoutEventView::WindowRemoved(wid), r2, l2)
            &&& outcome == plain()
        },
        Event::WindowFrameChanged(wid, new_frame, last_seen, requested, mouse_state) => {
            frame_changed(
                r,
                l,
                wid,
                new_frame,
                last_seen,
                requested,
                mouse_state,
                r2,
                l2,
                outcome,
            )
        },
        Event::ScreenParametersChanged { frames, spaces, scale_factors, converter } => {
            &&& screens_changed(
                r,
                l,
                screens_from(frames@, spaces@, scale_factors@),
                spaces@,
                converter,
                r2,
                l2,
            )
            &&& outcome == plain()
        },
        Event::SpaceChanged(spaces, on_screen) => {
            space_changed(
                r,
                l,
                spaces@,
                on_screen.visible@,
                on_screen.info@,
                r2,
                l2,
                outcome,
            )
        },
        Event::LeftMouseDown(point) => mouse_down(r, l, point, r2, l2) && outcome == plain(),
        Event::LeftMouseDragged(point) => {
            mouse_dragged(r, l, point, r2, l2) && outcome == plain()
        },
        Event::MouseUp => mouse_up(r, l, r2, l2) && outcome == plain(),
        Event::MouseMovedOverWindow(wsid) => mouse_over(r, l, wsid, r2, l2, outcome),
        Event::RaiseCompleted { window_id, sequence_id } => {
            &&& r2 == r
            &&& l2 == ask(l, l2, Req::RaiseCompleted(window_id, sequence_id))
            &&& outcome == plain()
        },
        Event::RaiseTimeout { sequence_id } => {
            r2 == r && l2 == ask(l, l2, Req::RaiseTimedOut(sequence_id)) && outcome == plain()
        },
        Event::ScrollWheel { delta_x, delta_y, alt_held } => {
            wheel_turned(r, l, delta_x, delta_y, alt_held, r2, l2, outcome)
        },
        Event::Command(command) => command_taken(r, l, command, r2, l2, outcome),
        Event::ConfigChanged(config) => {
            &&& config_set(r.layout, l, config, r2.layout, l2)
            &&& r2 == Known { layout: r2.layout, config, ..r }
            &&& outcome == plain()
        },
    }
}

/// The layout is brought up to date, unless something is being dragged.
pub open spec fn layout_settled(
    r: Known,
    l: Log,
    new: Option<WindowId>,
    is_resize: bool,
    r2: Known,
    l2: Log,
) -> bool {
    if r.in_drag {
        r2 == r && l2 == l
    } else {
        laid_out(
            r,
            l,
            match new {
                Some(wid) => seq![wid],
                None => Seq::empty(),
            },
            is_resize,
            r2,
            l2,
        )
    }
}

/// The active screen and the layout are brought up to date.
pub open spec fn screen_settled(
    r: Known,
    l: Log,
    new: Option<WindowId>,
    is_resize: bool,
    r2: Known,
    l2: Log,
) -> bool {
    exists|m: Known, t: Log| #[trigger]
        active_updated(r, l, m, t) && layout_settled(m, t, new, is_resize, r2, l2)
}

/// A window was raised: the layout manager hears that it has the focus.
pub open spec fn focus_settled(
    r: Known,
    l: Log,
    wid: WindowId,
    new: Option<WindowId>,
    is_resize: bool,
    r2: Known,
    l2: Log,
) -> bool {
    exists|m: Known, t: Log|
        {
            &&& #[trigger] told(
                r,
                l,
                LayoutEventView::WindowFocused(spaces_of(r.screens), wid),
                m,
                t,
            )
            &&& screen_settled(m, t, new, is_resize, r2, l2)
        }
}

/// The focus and the layout are brought up to date, as far as the event asks for it.
pub open spec fn settled(
    r: Known,
    l: Log,
    raised_window: Option<WindowId>,
    outcome: Outcome,
    r2: Known,
    l2: Log,
) -> bool {
    match outcome {
        Outcome::Done => r2 == r && l2 == l,
        Outcome::Settle { new, is_resize } => match raised_window {
            Some(wid) => focus_settled(r, l, wid, new, is_resize, r2, l2),
            None => layout_settled(r, l, new, is_resize, r2, l2),
        },
    }
}

/// What the reactor does on an event. `raised_window` is the window that the event
/// has raised, `main_window` the main window from then on.
pub open spec fn event_answered(
    r: Known,
    l: Log,
    event: Event,
    raised_window: Option<WindowId>,
    main_window: Option<WindowId>,
    r2: Known,
    l2: Log,
) -> bool {
    exists|m: Known, t: Log, outcome: Outcome| #[trigger]
        event_taken(Known { main: main_window, ..r }, l, event, m, t, outcome) && settled(
            m,
            t,
            raised_window,
            outcome,
            r2,
            l2,
        )
}

/// A window whose frame changed is known.
pub open spec fn frame_is_of_known(r: Known, event: Event) -> bool {
    match event {
        Event::WindowFrameChanged(wid, _, _, _, _) => r.windows.contains_key(wid),
        _ => true,
    }
}

/// The viewports move on, and the windows follow at once.
pub open spec fn ticked(r: Known, l: Log, r2: Known, l2: Log) -> bool {
    exists|t: Log|
        t == ask_each(l, t, ticks(r.layout.viewports)) && #[trigger] laid_out(
            r,
            t,
            Seq::empty(),
            true,
            r2,
            l2,
        )
}

/// The viewports have moved on; `again` says whether they will once more.
pub open spec fn tick_taken(r: Known, l: Log, r2: Known, l2: Log, again: bool) -> bool {
    exists|t: Log| #[trigger] ticked(r, l, r2, t) && in_motion(r2.layout, t, l2, again)
}

/// An event was handled after it was seen whether some viewport is in motion.
pub open spec fn answered_then_asked(
    r: Known,
    l: Log,
    event: Event,
    raised_window: Option<WindowId>,
    main_window: Option<WindowId>,
    was_moving: bool,
    r2: Known,
    l2: Log,
    wake: bool,
) -> bool {
    exists|t: Log|
        {
            &&& #[trigger] event_answered(r, l, event, raised_window, main_window, r2, t)
            &&& if was_moving {
                l2 == t && !wake
            } else {
                in_motion(r2.layout, t, l2, wake)
            }
        }
}

/// An event was handled; `wake` says that it has set some viewport in motion, where
/// none was before.
pub open spec fn step_taken(
    r: Known,
    l: Log,
    event: Event,
    raised_window: Option<WindowId>,
    main_window: Option<WindowId>,
    r2: Known,
    l2: Log,
    wake: bool,
) -> bool {
    exists|t: Log, was_moving: bool| #[trigger]
        in_motion(r.layout, l, t, was_moving) && answered_then_asked(
            r,
            t,
            event,
            raised_window,
            main_window,
            was_moving,
            r2,
            l2,
            wake,
        )
}

impl Reactor {
    fn tell_running<H: ReactorHost>(&mut self, link: &mut Link<H>)
        requires
            old(self)@.coherent(),
        ensures
            running_told(old(self)@, old(link).log(), final(self)@, final(link).log()),
            final(self)@.coherent(),
            grew(old(link).log(), final(link).log()),
    {
        let ghost r = self@;
        let ghost l = link.log();
        let pids = self.apps.keys();
        assert(lists(pids@, r.apps));
        let event = LayoutEvent::AppsRunningUpdated(pids);
        let ghost heard = event@;
        self.send_layout_event(link, event);
        proof {
            lemma_told_keeps(r, l, heard, Seq::empty(), false, self@, link.log());
        }
    }

    /// Tells the layout manager of an event that names no space.
    fn tell_simple<H: ReactorHost>(&mut self, link: &mut Link<H>, event: LayoutEvent)
        requires
            old(self)@.coherent(),
            event is AppClosed || event is WindowRemoved,
        ensures
            told(old(self)@, old(link).log(), event@, final(self)@, final(link).log()),
            final(self)@.coherent(),
            grew(old(link).log(), final(link).log()),
    {
        let ghost r = self@;
        let ghost l = link.log();
        let ghost heard = event@;
        self.send_layout_event(link, event);
        proof {
            lemma_told_keeps(r, l, heard, Seq::empty(), false, self@, link.log());
        }
    }

    /// Adds a window that became visible to the layout.
    pub fn on_became_visible<H: ReactorHost>(&mut self, link: &mut Link<H>, wid: WindowId) -> (outcome:
        Outcome)
        requires
            old(self)@.coherent(),
        ensures
            became_visible(
                old(self)@,
                old(link).log(),
                wid,
                final(self)@,
                final(link).log(),
                outcome,
            ),
            final(self)@.coherent(),
            grew(old(link).log(), final(link).log()),
    {
        let ghost r = self@;
        let ghost l = link.log();
        if !self.window_is_tracked(wid) {
            return Outcome::Settle { new: None, is_resize: false };
        }
        let frame = match self.windows.get(wid) {
            Some(window) => window.frame_monotonic,
            None => {
                return Outcome::Settle { new: None, is_resize: false };
            },
        };
        let space = self.best_space_for_window(link, &frame);
        let ghost t = link.log();
        assert(best_space(l, r.screens, frame, t, space));
        proof {
            lemma_best_space_exposed(r, l, frame, t, space);
        }
        if let Some(space) = space {
            if let Some(app) = self.apps.get(wid.pid) {
                let info = self.layout_info_of(Some(app), self.windows.get(wid).unwrap());
                let event = LayoutEvent::WindowAdded(space, wid, info);
                let ghost heard = event@;
                self.send_layout_event(link, event);
                proof {
                    lemma_told_keeps(r, t, heard, Seq::empty(), false, self@, link.log());
                }
                return Outcome::Settle { new: Some(wid), is_resize: false };
            }
        }
        Outcome::Settle { new: None, is_resize: false }
    }

    fn run_layout_command<H: ReactorHost>(&mut self, link: &mut Link<H>, command: LayoutCommand)
        requires
            old(self)@.coherent(),
        ensures
            command_told(old(self)@, old(link).log(), command, final(self)@, final(link).log()),
            final(self)@.coherent(),
            grew(old(link).log(), final(link).log()),
    {
        let ghost r = self@;
        let ghost l = link.log();
        let visible_spaces = self.visible_spaces();
        let space = self.main_window_space(link);
        let ghost t = link.log();
        proof {
            lemma_spaces_exposed(r.layout, r.screens);
            if let LayoutCommand::MoveFocus(direction) | LayoutCommand::MoveNode(direction) = command {
                lemma_neighbour_exposed(r.layout, spaces_of(r.screens), space->0, direction);
            }
            if space is Some {
                lemma_best_space_exposed(
                    r,
                    l,
                    r.windows[r.main->0].frame_monotonic,
                    t,
                    space,
                );
            }
        }
        let response = self.layout.handle_command(
            link,
            space,
            visible_spaces.as_slice(),
            command,
        );
        let ghost t1 = link.log();
        let ghost said = response@;
        proof {
            law_command_keeps_spaces(
                r.layout,
                t,
                space,
                spaces_of(r.screens),
                command,
                self@.layout,
                t1,
                said,
            );
        }
        self.handle_layout_response(link, response);
        assert(window_space(r, l, r.main, t, space));
        assert(command_run(r, t, space, command, self@, link.log()));
    }

    fn show_layouts<H: ReactorHost>(&self, link: &mut Link<H>)
        ensures
            final(link).log() == ask_each(
                old(link).log(),
                final(link).log(),
                layouts_shown(self@.layout, self@.screens),
            ),
            grew(old(link).log(), final(link).log()),
    {
        let spaces = self.visible_spaces();
        let ghost l = link.log();
        let ghost reqs = layouts_shown(self@.layout, self@.screens);
        let mut i: usize = 0;
        assert(link.log() =~= ask_each(l, link.log(), reqs.take(0)));
        while i < spaces.len()
            invariant
                i <= spaces@.len(),
                spaces@ == spaces_of(self@.screens),
                reqs == layouts_shown(self@.layout, self@.screens),
                link.log() == ask_each(l, link.log(), reqs.take(i as int)),
                grew(l, link.log()),
            decreases spaces@.len() - i,
        {
            let shown = self.layout.debug_tree_desc(spaces[i], "", true);
            link.show_layout(&shown);
            assert(link.log() =~= ask_each(l, link.log(), reqs.take(i + 1)));
            i += 1;
        }
        assert(reqs.take(i as int) =~= reqs);
    }

    fn run_command<H: ReactorHost>(&mut self, link: &mut Link<H>, command: Command) -> (outcome: Outcome)
        requires
            old(self)@.coherent(),
        ensures
            command_taken(
                old(self)@,
                old(link).log(),
                command,
                final(self)@,
                final(link).log(),
                outcome,
            ),
            final(self)@.coherent(),
            grew(old(link).log(), final(link).log()),
    {
        match command {
            Command::Layout(command) => {
                self.run_layout_command(link, command);
            },
            Command::Metrics(command) => {
                link.run_metrics_command(command.0);
            },
            Command::Reactor(ReactorCommand::Debug) => {
                self.show_layouts(link);
            },
            Command::Reactor(ReactorCommand::Serialize) => {
                let saved = self.layout.saved();
                assert(keeps(saved@, self@.layout));
                link.print_layouts(&saved);
            },
            Command::Reactor(ReactorCommand::SaveAndExit) => {
                let saved = self.layout.saved();
                assert(keeps(saved@, self@.layout));
                let status: i32 = if link.save_layouts(&saved) {
                    SAVED
                } else {
                    NOT_SAVED
                };
                link.exit(status);
                return Outcome::Done;
            },
        }
        Outcome::Settle { new: None, is_resize: false }
    }

    fn set_config<H: ReactorHost>(&mut self, link: &mut Link<H>, config: Config)
        requires
            old(self)@.coherent(),
        ensures
            config_set(
                old(self)@.layout,
                old(link).log(),
                config,
                final(self)@.layout,
                final(link).log(),
            ),
            final(self)@ == (Known { layout: final(self)@.layout, config, ..old(self)@ }),
            final(self)@.coherent(),
            grew(old(link).log(), final(link).log()),
    {
        let ghost s = self@.layout;
        let ghost l = link.log();
        self.layout.set_config(link, &config);
        proof {
            law_config_keeps_spaces(s, l, config, self@.layout, link.log());
        }
        self.config = config;
    }

    /// Does what an event asks for, before the focus and the layout are brought up to date.
    pub fn take_event<H: ReactorHost>(&mut self, link: &mut Link<H>, event: Event) -> (outcome: Outcome)
        requires
            old(self)@.coherent(),
            frame_is_of_known(old(self)@, event),
        ensures
            event_taken(
                old(self)@,
                old(link).log(),
                event,
                final(self)@,
                final(link).log(),
                outcome,
            ),
            final(self)@.coherent(),
            grew(old(link).log(), final(link).log()),
    {
        match event {
            Event::ApplicationLaunched {
                pid,
                info,
                handle,
                is_frontmost: _,
                main_window: _,
                visible_windows,
            } => {
                self.apps.insert(pid, AppState { info, handle });
                self.on_windows_discovered(link, pid, visible_windows, Vec::new());
            },
            Event::StartupComplete => {
                self.tell_running(link);
            },
            Event::ApplicationTerminated(pid) => {
                if let Some(app) = self.apps.get(pid) {
                    link.terminate_app(app.handle);
                }
            },
            Event::ApplicationThreadTerminated(pid) => {
                let _ = self.apps.remove(pid);
                self.tell_simple(link, LayoutEvent::AppClosed(pid));
            },
            Event::ApplicationActivated(_, _)
            | Event::ApplicationDeactivated(_)
            | Event::ApplicationGloballyActivated(_)
            | Event::ApplicationGloballyDeactivated(_)
            | Event::ApplicationMainWindowChanged(_, _, _) => {
                // Only the main window depends on these.
            },
            Event::WindowsDiscovered { pid, new, known_visible } => {
                self.on_windows_discovered(link, pid, new, known_visible);
            },
            Event::WindowCreated(wid, window, mouse_state) => {
                self.note_window(wid, window);
                if mouse_state == MouseState::Down {
                    // Updates are held back while the button is down, in case of a drag.
                    self.in_drag = true;
                }
            },
            Event::WindowsOnScreenUpdated { pid, on_screen } => match pid {
                Some(_) => {
                    self.update_partial_window_server_info(on_screen);
                },
                None => {
                    self.update_complete_window_server_info(on_screen);
                },
            },
            Event::WindowBecameVisible(wid) => {
                return self.on_became_visible(link, wid);
            },
            Event::WindowDestroyed(wid) => {
                self.layout.cancel_interactive_state();
                self.in_drag = false;
                let _ = self.windows.remove(wid);
                self.tell_simple(link, LayoutEvent::WindowRemoved(wid));
            },
            Event::WindowFrameChanged(wid, new_frame, last_seen, requested, mouse_state) => {
                return self.on_frame_changed(
                    link,
                    wid,
                    new_frame,
                    last_seen,
                    requested,
                    mouse_state,
                );
            },
            Event::ScreenParametersChanged { frames, spaces, scale_factors, converter } => {
                self.on_screens_changed(link, &frames, &spaces, &scale_factors, converter);
            },
            Event::SpaceChanged(spaces, on_screen) => {
                return self.on_space_changed(link, &spaces, on_screen);
            },
            Event::LeftMouseDown(point) => {
                self.on_mouse_down(link, point);
            },
            Event::LeftMouseDragged(point) => {
                self.on_mouse_dragged(link, point);
            },
            Event::MouseUp => {
                self.on_mouse_up(link);
            },
            Event::MouseMovedOverWindow(wsid) => {
                return self.on_mouse_over(link, wsid);
            },
            Event::RaiseCompleted { window_id, sequence_id } => {
                link.raise_completed(window_id, sequence_id);
            },
            Event::RaiseTimeout { sequence_id } => {
                link.raise_timed_out(sequence_id);
            },
            Event::ScrollWheel { delta_x, delta_y, alt_held } => {
                return self.on_wheel(link, delta_x, delta_y, alt_held);
            },
            Event::Command(command) => {
                return self.run_command(link, command);
            },
            Event::ConfigChanged(config) => {
                self.set_config(link, config);
            },
        }
        Outcome::Settle { new: None, is_resize: false }
    }

    fn settle_layout<H: ReactorHost>(
        &mut self,
        link: &mut Link<H>,
        new: Option<WindowId>,
        is_resize: bool,
    )
        requires
            old(self)@.coherent(),
        ensures
            layout_settled(
                old(self)@,
                old(link).log(),
                new,
                is_resize,
                final(self)@,
                final(link).log(),
            ),
            final(self)@.coherent(),
            grew(old(link).log(), final(link).log()),
    {
        if !self.in_drag {
            let mut new_wids: Vec<WindowId> = Vec::new();
            if let Some(wid) = new {
                new_wids.push(wid);
                assert(new_wids@ =~= seq![wid]);
            }
            self.update_layout(link, new_wids.as_slice(), is_resize);
        }
    }

    fn settle_focus<H: ReactorHost>(
        &mut self,
        link: &mut Link<H>,
        wid: WindowId,
        new: Option<WindowId>,
        is_resize: bool,
    )
        requires
            old(self)@.coherent(),
        ensures
            focus_settled(
                old(self)@,
                old(link).log(),
                wid,
                new,
                is_resize,
                final(self)@,
                final(link).log(),
            ),
            final(self)@.coherent(),
            grew(old(link).log(), final(link).log()),
    {
        let ghost r = self@;
        let ghost l = link.log();
        let spaces = self.visible_spaces();
        proof {
            lemma_spaces_exposed(r.layout, r.screens);
        }
        let event = LayoutEvent::WindowFocused(spaces, wid);
        let ghost heard = event@;
        self.send_layout_event(link, event);
        let ghost m = self@;
        let ghost t = link.log();
        proof {
            lemma_told_keeps(r, l, heard, Seq::empty(), false, m, t);
        }
        self.update_active_screen(link);
        let ghost m1 = self@;
        let ghost t1 = link.log();
        self.settle_layout(link, new, is_resize);
        assert(active_updated(m, t, m1, t1));
        assert(screen_settled(m, t, new, is_resize, self@, link.log()));
        assert(told(
            r,
            l,
            LayoutEventView::WindowFocused(spaces_of(r.screens), wid),
            m,
            t,
        ));
    }

    /// Brings the focus and the layout up to date, as far as `outcome` asks for it.
    pub fn settle<H: ReactorHost>(
        &mut self,
        link: &mut Link<H>,
        raised_window: Option<WindowId>,
        outcome: Outcome,
    )
        requires
            old(self)@.coherent(),
        ensures
            settled(
                old(self)@,
                old(link).log(),
                raised_window,
                outcome,
                final(self)@,
                final(link).log(),
            ),
            final(self)@.coherent(),
            grew(old(link).log(), final(link).log()),
    {
        match outcome {
            Outcome::Done => {},
            Outcome::Settle { new, is_resize } => match raised_window {
                Some(wid) => {
                    self.settle_focus(link, wid, new, is_resize);
                },
                None => {
                    self.settle_layout(link, new, is_resize);
                },
            },
        }
    }

    /// Handles an event. `raised_window` is the window that the event has raised,
    /// `main_window` the main window of the active application from then on.
    pub fn handle_event<H: ReactorHost>(
        &mut self,
        link: &mut Link<H>,
        event: Event,
        raised_window: Option<WindowId>,
        main_window: Option<WindowId>,
    )
        requires
            old(self)@.coherent(),
            frame_is_of_known(old(self)@, event),
        ensures
            event_answered(
                old(self)@,
                old(link).log(),
                event,
                raised_window,
                main_window,
                final(self)@,
                final(link).log(),
            ),
            final(self)@.coherent(),
            grew(old(link).log(), final(link).log()),
    {
        let ghost r = self@;
        let ghost l = link.log();
        let ghost heard = event;
        self.main_window = main_window;
        let outcome = self.take_event(link, event);
        let ghost m = self@;
        let ghost t = link.log();
        self.settle(link, raised_window, outcome);
        assert(event_taken(Known { main: main_window, ..r }, l, heard, m, t, outcome));
    }

    /// Handles an event. Returns whether it has set some viewport in motion, so that a
    /// tick is due at once.
    pub fn step<H: ReactorHost>(
        &mut self,
        link: &mut Link<H>,
        event: Event,
        raised_window: Option<WindowId>,
        main_window: Option<WindowId>,
    ) -> (wake: bool)
        requires
            old(self)@.coherent(),
            frame_is_of_known(old(self)@, event),
        ensures
            step_taken(
                old(self)@,
                old(link).log(),
                event,
                raised_window,
                main_window,
                final(self)@,
                final(link).log(),
                wake,
            ),
            final(self)@.coherent(),
            grew(old(link).log(), final(link).log()),
    {
        let ghost r = self@;
        let ghost l = link.log();
        let ghost heard = event;
        let was_moving = self.layout.has_active_scroll_animation(link);
        let ghost t = link.log();
        self.handle_event(link, event, raised_window, main_window);
        let ghost t1 = link.log();
        let wake = !was_moving && self.layout.has_active_scroll_animation(link);
        assert(event_answered(r, t, heard, raised_window, main_window, self@, t1));
        assert(in_motion(r.layout, l, t, was_moving));
        assert(answered_then_asked(
            r,
            t,
            heard,
            raised_window,
            main_window,
            was_moving,
            self@,
            link.log(),
            wake,
        ));
        wake
    }

    /// Moves the viewports on and lays the screens out. Returns whether another such
    /// tick is due.
    pub fn on_tick<H: ReactorHost>(&mut self, link: &mut Link<H>) -> (again: bool)
        requires
            old(self)@.coherent(),
        ensures
            tick_taken(old(self)@, old(link).log(), final(self)@, final(link).log(), again),
            final(self)@.coherent(),
            grew(old(link).log(), final(link).log()),
    {
        let ghost r = self@;
        let ghost l = link.log();
        self.layout.tick_viewports(link);
        let ghost t = link.log();
        let none: [WindowId; 0] = [];
        let new_wids: &[WindowId] = &none;
        assert(new_wids@ =~= Seq::<WindowId>::empty());
        self.update_layout(link, new_wids, true);
        let ghost t1 = link.log();
        let again = self.layout.has_active_scroll_animation(link);
        assert(laid_out(r, t, Seq::empty(), true, self@, t1));
        assert(ticked(r, l, self@, t1));
        again
    }
}

} // verus!
