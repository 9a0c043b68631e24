//! The event loop, one step at a time.
//!
//! A turn of the loop renders the whole tree of widgets, paints the frame,
//! waits for an event and then takes every event that has come in, in the
//! order in which they came, before it renders again. Whoever runs the loop
//! waits for the events and hands them over; what to do with each is decided
//! here.

use vstd::prelude::*;
use crate::input::{InputEvent, Key, MouseEvent};
use crate::ir::{is_cell_of, ContentID, Frame, SegmentView, TextBlock};
use crate::widget::{App, LayoutError, RenderContext, ShouldPropagate, Widget};
use crate::{AppEvent, Color, Name, Pos, RenderBound, Size};

verus! {

/// What comes in on the channel of the loop.
#[derive(Debug, Clone, PartialEq, Eq)]
pub enum Event {
    Input(InputEvent),
    App(AppEvent),
    Resize(Size),
}

/// How the loop goes on after an event.
#[derive(Debug, Clone, Copy, PartialEq, Eq, Structural)]
pub enum Flow {
    /// Take the next event that has come in; render again when there is
    /// none.
    Next,
    /// Render again now; events that have come in wait for the next turn.
    Redraw,
    /// Leave the loop.
    Exit,
}

/// Who gets an input after the application has seen it.
#[derive(Debug, Clone, Copy, PartialEq, Eq, Structural)]
pub enum Target {
    /// Nobody: the application kept the input, or nothing can be made of
    /// it.
    Nobody,
    /// The key handlers of the widget that has the focus.
    Focused(Key),
    /// The mouse handlers of the cell under the mouse.
    Cell(MouseEvent),
}

/// Who gets `event` after the application has said `verdict` of it.
pub open spec fn target_of(verdict: ShouldPropagate, event: InputEvent) -> Target {
    match verdict {
        ShouldPropagate::Stop => Target::Nobody,
        ShouldPropagate::Continue => match event {
            InputEvent::Key(key) => Target::Focused(key),
            InputEvent::Mouse(mouse) => Target::Cell(mouse),
            InputEvent::Unsupported(_) => Target::Nobody,
        },
    }
}

/// The widget that has the focus after `event`, where `focus` had it
/// before: the one that the event gives it to, if it gives it to any.
pub open spec fn focus_next(focus: Name, event: Event) -> Name {
    match event {
        Event::App(AppEvent::SetFocus(name)) => name,
        _ => focus,
    }
}

/// The extent that frames are rendered for after `event`, where it was
/// `extent` before: the one that the event resizes the terminal to, if it
/// resizes it.
pub open spec fn extent_next(extent: Size, event: Event) -> Size {
    match event {
        Event::Resize(size) => size,
        _ => extent,
    }
}

/// The widget that has the focus after the events `events`, taken in their
/// order, where `focus` had it before them.
pub open spec fn focus_after(focus: Name, events: Seq<Event>) -> Name
    decreases events.len(),
{
    if events.len() == 0 {
        focus
    } else {
        focus_next(focus_after(focus, events.drop_last()), events.last())
    }
}

/// The extent that frames are rendered for after the events `events`,
/// taken in their order, where it was `extent` before them.
pub open spec fn extent_after(extent: Size, events: Seq<Event>) -> Size
    decreases events.len(),
{
    if events.len() == 0 {
        extent
    } else {
        extent_next(extent_after(extent, events.drop_last()), events.last())
    }
}

/// How the loop goes on after an input of which the application has said
/// `verdict`.
pub open spec fn flow_of(verdict: ShouldPropagate) -> Flow {
    match verdict {
        ShouldPropagate::Stop => Flow::Redraw,
        ShouldPropagate::Continue => Flow::Next,
    }
}

/// Routes an input after the application has seen it: an input that the
/// application stops goes to nobody and makes the loop render again; any
/// other goes to the widgets, a key to the one that has the focus and a
/// mouse event to the cell under the mouse.
pub fn route(verdict: ShouldPropagate, event: &InputEvent) -> (routed: (Flow, Target))
    ensures
        routed.0 == flow_of(verdict),
        routed.1 == target_of(verdict, *event),
{
    match verdict {
        ShouldPropagate::Stop => (Flow::Redraw, Target::Nobody),
        ShouldPropagate::Continue => {
            let target = match event {
                InputEvent::Key(key) => Target::Focused(*key),
                InputEvent::Mouse(mouse) => Target::Cell(*mouse),
                InputEvent::Unsupported(_) => Target::Nobody,
            };
            (Flow::Next, target)
        },
    }
}

/// What paints frames on a terminal.
pub trait RenderBackend {
    /// Shows `frame`.
    fn paint_frame(&mut self, frame: Frame<'_>)
        ensures
            old(self).painted(frame, final(self)),
    ;

    /// What the backend says of its painting: handed `frame`, it may
    /// become `after`. A backend that says nothing admits every outcome.
    open spec fn painted(&self, frame: Frame<'_>, after: &Self) -> bool {
        true
    }

    /// The extent of the terminal.
    fn size(&self) -> (size: Size)
        ensures
            self.reports(size),
    ;

    /// What the backend says of its extent: `size` is what
    /// [`RenderBackend::size`] may give. A backend that says nothing admits
    /// every extent.
    open spec fn reports(&self, size: Size) -> bool {
        true
    }

    /// Is told that the terminal has the extent `size` now.
    fn resize(&mut self, size: Size)
        ensures
            old(self).resized(size, final(self)),
    ;

    /// What the backend says of a resize: told the extent `size`, it may
    /// become `after`. A backend that says nothing admits every outcome.
    open spec fn resized(&self, size: Size, after: &Self) -> bool {
        true
    }
}

/// The state of the event loop: the extent of the terminal, the widget that
/// has the focus, and the backend that paints.
pub struct Executor<B: RenderBackend> {
    size: Size,
    focus: Name,
    be: B,
}

impl<B: RenderBackend> Executor<B> {
    /// The extent that frames are rendered for.
    pub closed spec fn extent(&self) -> Size {
        self.size
    }

    /// The widget that has the focus.
    pub closed spec fn focused(&self) -> Name {
        self.focus
    }

    /// The backend that paints.
    pub closed spec fn painter(&self) -> B {
        self.be
    }

    /// A loop that paints on `be` and gives the focus to `focus`. It
    /// renders for the extent that `be` reports.
    pub fn new(be: B, focus: Name) -> (executor: Self)
        ensures
            executor.focused() == focus,
            executor.painter() == be,
            be.reports(executor.extent()),
    {
        let size = be.size();
        Self { size, focus, be }
    }

    /// The extent that frames are rendered for.
    pub fn size(&self) -> (size: Size)
        ensures
            size == self.extent(),
    {
        self.size
    }

    /// The widget that has the focus.
    pub fn focus(&self) -> (focus: Name)
        ensures
            focus == self.focused(),
    {
        self.focus
    }

    /// The backend, to reach what lies behind it.
    pub fn backend(&mut self) -> (be: &mut B)
        ensures
            *be == old(self).painter(),
            final(self).painter() == *final(be),
            final(self).extent() == old(self).extent(),
            final(self).focused() == old(self).focused(),
    {
        &mut self.be
    }

    /// `cell` shows `segment` in the colours that `app` gives for it, the
    /// terminal's own colour standing in for one that `app` leaves open.
    pub open spec fn paints<K, M, A: App<K, M>>(
        app: &A,
        segment: SegmentView,
        cell: (Color, Color, &str, usize),
    ) -> bool {
        &&& cell.2@ == segment.text
        &&& cell.3 == segment.len
        &&& exists|colors: (Option<Color>, Option<Color>)| #[trigger]
            app.styled(segment.id, colors) && cell.0 == (match colors.0 {
                Some(color) => color,
                None => Color::Reset,
            }) && cell.1 == (match colors.1 {
                Some(color) => color,
                None => Color::Reset,
            })
    }

    /// `frame` is the frame of `ui` for `app` where the widget `focus` has
    /// the focus: of the extent of `ui`, with the cursor of that widget, a
    /// row for each line of `ui` and in it a cell for each span, with the
    /// text and the length of the span and the colours of `app`.
    pub open spec fn frames<K, M, A: App<K, M>>(
        app: &A,
        ui: &TextBlock<K, M>,
        focus: Name,
        frame: Frame<'_>,
    ) -> bool {
        &&& frame.size == ui.extent()
        &&& frame.focus == ui.cursor_of(focus)
        &&& frame.image@.len() == ui.content().len()
        &&& forall|r: int|
            0 <= r < frame.image@.len() ==> (#[trigger] frame.image@[r])@.len()
                == ui.content()[r].len()
        &&& forall|r: int, k: int|
            0 <= r < frame.image@.len() && 0 <= k < frame.image@[r]@.len() ==> Self::paints(
                app,
                ui.content()[r][k],
                #[trigger] frame.image@[r]@[k],
            )
    }

    /// What one event does. `Exit` ends the loop and `SetFocus` gives the
    /// focus to another widget; neither touches the backend or the
    /// application. `Resize` sets the extent and is told to the backend and
    /// to the application. An input is heard by the application; what the
    /// application says of it decides how the loop goes on, and, unless the
    /// application stops it, it is offered to the handlers of `ui`: a key to
    /// those of the widget that has the focus before the event, a mouse
    /// event to those of its cell.
    ///
    /// `self` and `app` are the loop and the application before the event,
    /// `after` and `app_after` after it.
    pub open spec fn steps<
        K,
        M,
        A: App<K, M>,
        FK: Fn(&K, Key) -> ShouldPropagate,
        FM: Fn(&M, Pos, MouseEvent) -> ShouldPropagate,
    >(
        &self,
        app: &A,
        ui: &TextBlock<K, M>,
        event: Event,
        invoke_key: &FK,
        invoke_mouse: &FM,
        after: &Self,
        app_after: &A,
        flow: Flow,
    ) -> bool {
        &&& after.focused() == focus_next(self.focused(), event)
        &&& after.extent() == extent_next(self.extent(), event)
        &&& match event {
            Event::App(AppEvent::Exit) => {
                &&& flow == Flow::Exit
                &&& after.painter() == self.painter()
                &&& *app_after == *app
            },
            Event::App(AppEvent::SetFocus(_)) => {
                &&& flow == Flow::Next
                &&& after.painter() == self.painter()
                &&& *app_after == *app
            },
            Event::Resize(size) => {
                &&& flow == Flow::Next
                &&& self.painter().resized(size, &after.painter())
                &&& app.resizes(size, app_after)
            },
            Event::Input(input) => {
                &&& after.painter() == self.painter()
                &&& exists|verdict: ShouldPropagate|
                    {
                        &&& #[trigger] app.hears(input, app_after, verdict)
                        &&& flow == flow_of(verdict)
                        &&& match target_of(verdict, input) {
                            Target::Focused(key) => exists|offered: usize| #[trigger]
                                ui.key_offered(self.focused(), key, invoke_key, offered),
                            Target::Cell(mouse) => exists|offered: usize| #[trigger]
                                ui.mouse_offered(mouse, invoke_mouse, offered),
                            Target::Nobody => true,
                        }
                    }
            },
        }
    }

    /// `runs` is how the loop and the application go through the first
    /// `taken.1` of `events`, one after the other: from `self` and `app`
    /// to `after` and `app_after`, each event doing what [`Self::steps`]
    /// says to what the one before it left, and the loop going on to the
    /// next event after each but the last, after which it goes on as
    /// `taken.0` says.
    pub open spec fn chains<
        K,
        M,
        A: App<K, M>,
        FK: Fn(&K, Key) -> ShouldPropagate,
        FM: Fn(&M, Pos, MouseEvent) -> ShouldPropagate,
    >(
        &self,
        app: &A,
        ui: &TextBlock<K, M>,
        events: Seq<Event>,
        invoke_key: &FK,
        invoke_mouse: &FM,
        runs: Seq<(Self, A)>,
        taken: (Flow, usize),
        after: &Self,
        app_after: &A,
    ) -> bool {
        &&& runs.len() == taken.1 + 1
        &&& runs[0] == (*self, *app)
        &&& runs[taken.1 as int] == (*after, *app_after)
        &&& forall|k: int|
            0 <= k < taken.1 ==> runs[k].0.steps(
                &runs[k].1,
                ui,
                #[trigger] events[k],
                invoke_key,
                invoke_mouse,
                &runs[k + 1].0,
                &runs[k + 1].1,
                if k + 1 < taken.1 {
                    Flow::Next
                } else {
                    taken.0
                },
            )
    }

    /// The first half of a turn: renders `app` for the extent of the
    /// terminal, paints the frame with the cursor of the widget that has the
    /// focus, and returns the block, which the events of this turn are
    /// routed through. A block that is not of the extent of the terminal is
    /// an error, and nothing is painted.
    pub fn render<K, M, A: App<K, M>>(&mut self, app: &A) -> (rendered: Result<
        TextBlock<K, M>,
        LayoutError,
    >)
        ensures
            final(self).extent() == old(self).extent(),
            final(self).focused() == old(self).focused(),
            rendered matches Ok(ui) ==> ui.wf() && ui.extent() == old(self).extent(),
            rendered is Err ==> final(self).painter() == old(self).painter(),
            rendered matches Ok(ui) ==> exists|frame: Frame<'_>|
                Self::frames(app, &ui, old(self).focused(), frame) && #[trigger] old(
                    self,
                ).painter().painted(frame, &final(self).painter()),
            exists|ctx: RenderContext, shown: Result<TextBlock<K, M>, LayoutError>|
                ctx.bounds() == (RenderBound {
                    width: Some(old(self).extent().cols),
                    height: Some(old(self).extent().rows),
                }) && #[trigger] app.shows(ctx, shown) && rendered == crate::widget::sized(
                    ctx.bounds(),
                    shown,
                ),
    {
        let bound = RenderBound::from(self.size);
        let ctx = RenderContext::new(bound, app.name(), app.widget_type());
        let shown = app.render(ctx);
        proof {
            assert(app.shows(ctx, shown));
        }
        let ui = match crate::widget::check_size(bound, shown) {
            Ok(ui) => ui,
            Err(error) => {
                return Err(error);
            },
        };
        let style = |id: ContentID| -> (colors: (Option<Color>, Option<Color>))
            ensures
                app.styled(id, colors),
            { app.style(id) };
        let frame = ui.render_frame(style, Some(self.focus));
        let ghost shown = frame;
        proof {
            assert forall|r: int, k: int|
                0 <= r < shown.image@.len() && 0 <= k < shown.image@[r]@.len()
                    implies Self::paints(app, ui.content()[r][k], #[trigger] shown.image@[r]@[k]) by {
                assert(is_cell_of(style, ui.content()[r][k], shown.image@[r]@[k]));
            }
            assert(Self::frames(app, &ui, old(self).focused(), shown));
        }
        self.be.paint_frame(frame);
        proof {
            assert(old(self).painter().painted(shown, &self.painter()));
        }
        Ok(ui)
    }

    /// Takes one event. `Exit` ends the loop. `SetFocus` gives the focus
    /// to another widget, which shows with the next frame. `Resize` sets the
    /// extent of the frames to come and tells the backend and the
    /// application. An input goes to the application first and then, unless
    /// the application stops it, through the handlers of `ui` as
    /// [`route`] says: `invoke_key` and `invoke_mouse` hand it to one handler
    /// each time and return what the handler says.
    pub fn handle_event<
        K,
        M,
        A: App<K, M>,
        FK: Fn(&K, Key) -> ShouldPropagate,
        FM: Fn(&M, Pos, MouseEvent) -> ShouldPropagate,
    >(
        &mut self,
        app: &mut A,
        ui: &TextBlock<K, M>,
        event: Event,
        invoke_key: &FK,
        invoke_mouse: &FM,
    ) -> (flow: Flow)
        requires
            ui.wf(),
            forall|handler: &K, key: Key| call_requires(*invoke_key, (handler, key)),
            forall|handler: &M, pos: Pos, mouse: MouseEvent|
                call_requires(*invoke_mouse, (handler, pos, mouse)),
        ensures
            old(self).steps(
                old(app),
                ui,
                event,
                invoke_key,
                invoke_mouse,
                final(self),
                final(app),
                flow,
            ),
    {
        match event {
            Event::App(AppEvent::Exit) => Flow::Exit,
            Event::App(AppEvent::SetFocus(name)) => {
                self.focus = name;
                Flow::Next
            },
            Event::Resize(size) => {
                self.size = size;
                self.be.resize(size);
                app.handle_resize(size);
                Flow::Next
            },
            Event::Input(event) => {
                let verdict = app.handle_input(&event);
                let (flow, target) = route(verdict, &event);
                match target {
                    Target::Focused(key) => {
                        let offered = ui.handle_key(&self.focus, key, invoke_key);
                        proof {
                            assert(ui.key_offered(old(self).focused(), key, invoke_key, offered));
                        }
                    },
                    Target::Cell(mouse) => {
                        let offered = ui.handle_mouse(mouse, invoke_mouse);
                        proof {
                            assert(ui.mouse_offered(mouse, invoke_mouse, offered));
                        }
                    },
                    Target::Nobody => {},
                }
                proof {
                    assert(old(app).hears(event, app, verdict));
                }
                flow
            },
        }
    }

    /// The second half of a turn: takes `events`, which are the events that
    /// have come in, in their order, until one of them ends the loop or
    /// makes it render again. Returns how the loop goes on and the number of
    /// events that were taken. Events that were not taken are still to be
    /// taken, before any that come in later.
    pub fn drain<
        K,
        M,
        A: App<K, M>,
        FK: Fn(&K, Key) -> ShouldPropagate,
        FM: Fn(&M, Pos, MouseEvent) -> ShouldPropagate,
    >(
        &mut self,
        app: &mut A,
        ui: &TextBlock<K, M>,
        events: Vec<Event>,
        invoke_key: &FK,
        invoke_mouse: &FM,
    ) -> (taken: (Flow, usize))
        requires
            ui.wf(),
            forall|handler: &K, key: Key| call_requires(*invoke_key, (handler, key)),
            forall|handler: &M, pos: Pos, mouse: MouseEvent|
                call_requires(*invoke_mouse, (handler, pos, mouse)),
        ensures
            taken.1 <= events@.len(),
            taken.0 == Flow::Next ==> taken.1 == events@.len(),
            taken.0 != Flow::Next ==> taken.1 > 0,
            taken.0 == Flow::Exit ==> events@[taken.1 - 1] == Event::App(AppEvent::Exit),
            taken.0 == Flow::Redraw ==> events@[taken.1 - 1] is Input,
            forall|k: int|
                0 <= k < taken.1 - 1 ==> #[trigger] events@[k] != Event::App(AppEvent::Exit),
            taken.0 != Flow::Exit ==> forall|k: int|
                0 <= k < taken.1 ==> #[trigger] events@[k] != Event::App(AppEvent::Exit),
            final(self).focused() == focus_after(
                old(self).focused(),
                events@.take(taken.1 as int),
            ),
            final(self).extent() == extent_after(old(self).extent(), events@.take(taken.1 as int)),
            exists|runs: Seq<(Self, A)>| #[trigger]
                old(self).chains(
                    old(app),
                    ui,
                    events@,
                    invoke_key,
                    invoke_mouse,
                    runs,
                    taken,
                    final(self),
                    final(app),
                ),
    {
        let count = events.len();
        let mut taken: usize = 0;
        let ghost mut runs: Seq<(Self, A)> = seq![(*self, *app)];
        for event in it: events
            invariant
                runs.len() == taken + 1,
                runs[0] == (*old(self), *old(app)),
                runs[taken as int] == (*self, *app),
                forall|k: int|
                    0 <= k < taken ==> runs[k].0.steps(
                        &runs[k].1,
                        ui,
                        #[trigger] events@[k],
                        invoke_key,
                        invoke_mouse,
                        &runs[k + 1].0,
                        &runs[k + 1].1,
                        Flow::Next,
                    ),
                taken == it.index(),
                count == events@.len(),
                it.seq() == events@,
                ui.wf(),
                forall|handler: &K, key: Key| call_requires(*invoke_key, (handler, key)),
                forall|handler: &M, pos: Pos, mouse: MouseEvent|
                    call_requires(*invoke_mouse, (handler, pos, mouse)),
                forall|k: int|
                    0 <= k < taken ==> #[trigger] events@[k] != Event::App(AppEvent::Exit),
                self.focused() == focus_after(old(self).focused(), events@.take(taken as int)),
                self.extent() == extent_after(old(self).extent(), events@.take(taken as int)),
        {
            proof {
                assert(events@.take(taken + 1).drop_last() =~= events@.take(taken as int));
                assert(events@.take(taken + 1).last() == event);
            }
            let ghost before = runs;
            let ghost taking = event;
            let flow = self.handle_event(app, ui, event, invoke_key, invoke_mouse);
            proof {
                runs = before.push((*self, *app));
                assert(events@[taken as int] == taking);
                assert forall|k: int| 0 <= k < taken + 1 implies runs[k].0.steps(
                    &runs[k].1,
                    ui,
                    #[trigger] events@[k],
                    invoke_key,
                    invoke_mouse,
                    &runs[k + 1].0,
                    &runs[k + 1].1,
                    if k + 1 < taken + 1 {
                        Flow::Next
                    } else {
                        flow
                    },
                ) by {
                    if k < taken {
                        assert(runs[k] == before[k]);
                        assert(runs[k + 1] == before[k + 1]);
                    }
                }
            }
            taken = taken + 1;
            match flow {
                Flow::Next => {},
                Flow::Redraw => {
                    proof {
                        assert(old(self).chains(
                            old(app),
                            ui,
                            events@,
                            invoke_key,
                            invoke_mouse,
                            runs,
                            (Flow::Redraw, taken),
                            self,
                            app,
                        ));
                    }
                    return (Flow::Redraw, taken);
                },
                Flow::Exit => {
                    proof {
                        assert(old(self).chains(
                            old(app),
                            ui,
                            events@,
                            invoke_key,
                            invoke_mouse,
                            runs,
                            (Flow::Exit, taken),
                            self,
                            app,
                        ));
                    }
                    return (Flow::Exit, taken);
                },
            }
        }
        proof {
            assert(old(self).chains(
                old(app),
                ui,
                events@,
                invoke_key,
                invoke_mouse,
                runs,
                (Flow::Next, taken),
                self,
                app,
            ));
        }
        (Flow::Next, taken)
    }
}

} // verus!
