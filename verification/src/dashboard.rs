use vstd::prelude::*;

verus! {

/// What the plot reports about hovering and picking points.
pub enum PickEvent {
    Pick(usize),
    ClearPick,
    Hover(usize),
    ClearHover,
}

/// What the map viewer receives.
pub enum UiEvent {
    Welcome,
    ButtonPressed,
    ContentChanged(String),
    /// The stored points were read; there are this many.
    Loaded(usize),
    /// A message of the plot widget, with the hover or pick event it carries,
    /// if any.
    Plot(Option<PickEvent>),
}

/// What the viewer asks its surroundings to do after an event.
pub enum UiCommand {
    Nothing,
    /// Search, embed and store pages for this query, then read the points back.
    Load(String),
    /// Draw the loaded points as a new series.
    ShowSeries,
    /// Pass the message to the plot widget, then mark this point as picked.
    UpdatePlot(Option<usize>),
}

/// The state of the map viewer apart from the widget and the points
/// themselves.
pub struct ViewState {
    pub content: String,
    pub point_count: Option<usize>,
    pub series_shown: bool,
    pub picked_index: Option<usize>,
}

/// The picked index after a plot event.
pub open spec fn picked_after(picked: Option<usize>, event: Option<PickEvent>) -> Option<usize> {
    match event {
        Some(PickEvent::Pick(i)) => Some(i),
        Some(PickEvent::ClearPick) => None,
        _ => picked,
    }
}

/// The viewer's state as values: the query text, the number of loaded
/// points, whether their series is shown, and the picked point.
pub open spec fn model_well_formed(m: (Seq<char>, Option<usize>, bool, Option<usize>)) -> bool {
    &&& (m.1 is Some) == m.2
    &&& m.3 is Some ==> m.2
}

/// The events the viewer handles: the welcome message is not handled, and a
/// point can only be picked on a shown series.
pub open spec fn model_accepts(m: (Seq<char>, Option<usize>, bool, Option<usize>), event: UiEvent) -> bool {
    match event {
        UiEvent::Welcome => false,
        UiEvent::Plot(e) => picked_after(m.3, e) is Some ==> m.2,
        _ => true,
    }
}

/// The state after one event.
pub open spec fn model_after(
    m: (Seq<char>, Option<usize>, bool, Option<usize>),
    event: UiEvent,
) -> (Seq<char>, Option<usize>, bool, Option<usize>) {
    match event {
        UiEvent::ContentChanged(c) => (c@, m.1, m.2, m.3),
        UiEvent::ButtonPressed => (Seq::empty(), m.1, m.2, m.3),
        UiEvent::Loaded(n) => (m.0, Some(n), true, m.3),
        UiEvent::Plot(e) => (m.0, m.1, m.2, picked_after(m.3, e)),
        UiEvent::Welcome => m,
    }
}

/// The state after a sequence of events.
pub open spec fn model_run(
    m: (Seq<char>, Option<usize>, bool, Option<usize>),
    events: Seq<UiEvent>,
) -> (Seq<char>, Option<usize>, bool, Option<usize>)
    decreases events.len(),
{
    if events.len() == 0 {
        m
    } else {
        model_after(model_run(m, events.drop_last()), events.last())
    }
}

/// Every event of the sequence is handled in the state it arrives in.
pub open spec fn run_accepted(m: (Seq<char>, Option<usize>, bool, Option<usize>), events: Seq<UiEvent>) -> bool
    decreases events.len(),
{
    if events.len() == 0 {
        true
    } else {
        run_accepted(m, events.drop_last()) && model_accepts(model_run(m, events.drop_last()), events.last())
    }
}

/// The state at start-up.
pub open spec fn initial_model() -> (Seq<char>, Option<usize>, bool, Option<usize>) {
    (Seq::empty(), None, false, None)
}

/// Starting up and then handling any sequence of events keeps the viewer
/// well formed: points are loaded exactly when their series is shown, and a
/// point is picked only on a shown series.
pub proof fn law_viewer_stays_well_formed(events: Seq<UiEvent>)
    requires
        run_accepted(initial_model(), events),
    ensures
        model_well_formed(model_run(initial_model(), events)),
        (model_run(initial_model(), events).1 is Some) == model_run(initial_model(), events).2,
    decreases events.len(),
{
    if events.len() > 0 {
        law_viewer_stays_well_formed(events.drop_last());
    }
}

/// Only picking and clearing the pick change the picked point: hovering,
/// leaving a hovered point and other plot messages keep it. Picking point `i`
/// picks `i`; clearing the pick leaves nothing picked. Plot messages change
/// nothing else.
pub proof fn law_only_picks_change_the_pick(
    m: (Seq<char>, Option<usize>, bool, Option<usize>),
    e: Option<PickEvent>,
)
    ensures
        match e {
            Some(PickEvent::Pick(i)) => model_after(m, UiEvent::Plot(e)).3 == Some(i),
            Some(PickEvent::ClearPick) => model_after(m, UiEvent::Plot(e)).3 is None,
            _ => model_after(m, UiEvent::Plot(e)).3 == m.3,
        },
        model_after(m, UiEvent::Plot(e)).0 == m.0,
        model_after(m, UiEvent::Plot(e)).1 == m.1,
        model_after(m, UiEvent::Plot(e)).2 == m.2,
{
}

impl ViewState {
    /// The state as values.
    pub open spec fn model(&self) -> (Seq<char>, Option<usize>, bool, Option<usize>) {
        (self.content@, self.point_count, self.series_shown, self.picked_index)
    }

    /// See `model_well_formed`.
    pub open spec fn well_formed(&self) -> bool {
        model_well_formed(self.model())
    }

    /// See `model_accepts`.
    pub open spec fn accepts(&self, event: UiEvent) -> bool {
        model_accepts(self.model(), event)
    }

    /// The state at start-up: an empty query, no points, nothing picked.
    pub fn new() -> (r: Self)
        ensures
            r.content@ == Seq::<char>::empty(),
            r.point_count is None,
            !r.series_shown,
            r.picked_index is None,
            r.model() == initial_model(),
            r.well_formed(),
    {
        ViewState { content: String::new(), point_count: None, series_shown: false, picked_index: None }
    }

    /// Handles one event and says what to do next.
    pub fn update(&mut self, event: UiEvent) -> (r: UiCommand)
        requires
            old(self).well_formed(),
            old(self).accepts(event),
        ensures
            final(self).well_formed(),
            final(self).model() == model_after(old(self).model(), event),
            event matches UiEvent::Plot(Some(PickEvent::Pick(i))) ==> final(self).picked_index == Some(i),
            event matches UiEvent::Plot(Some(PickEvent::ClearPick)) ==> final(self).picked_index is None,
            event matches UiEvent::Plot(e) && !(e matches Some(PickEvent::Pick(_))) && !(e matches Some(
                PickEvent::ClearPick,
            )) ==> final(self).picked_index == old(self).picked_index,
            match event {
                UiEvent::ContentChanged(c) => {
                    &&& final(self).content == c
                    &&& final(self).point_count == old(self).point_count
                    &&& final(self).series_shown == old(self).series_shown
                    &&& final(self).picked_index == old(self).picked_index
                    &&& r is Nothing
                },
                UiEvent::ButtonPressed => {
                    &&& final(self).content@ == Seq::<char>::empty()
                    &&& final(self).point_count == old(self).point_count
                    &&& final(self).series_shown == old(self).series_shown
                    &&& final(self).picked_index == old(self).picked_index
                    &&& r matches UiCommand::Load(q) && q@ == old(self).content@
                },
                UiEvent::Loaded(n) => {
                    &&& final(self).content == old(self).content
                    &&& final(self).point_count == Some(n)
                    &&& final(self).series_shown
                    &&& final(self).picked_index == old(self).picked_index
                    &&& r is ShowSeries
                },
                UiEvent::Plot(e) => {
                    &&& final(self).content == old(self).content
                    &&& final(self).point_count == old(self).point_count
                    &&& final(self).series_shown == old(self).series_shown
                    &&& final(self).picked_index == picked_after(old(self).picked_index, e)
                    &&& r == UiCommand::UpdatePlot(final(self).picked_index)
                },
                UiEvent::Welcome => false,
            },
    {
        match event {
            UiEvent::ContentChanged(c) => {
                self.content = c;
                UiCommand::Nothing
            },
            UiEvent::ButtonPressed => {
                let query = self.content.clone();
                self.content = String::new();
                UiCommand::Load(query)
            },
            UiEvent::Loaded(n) => {
                self.point_count = Some(n);
                self.series_shown = true;
                UiCommand::ShowSeries
            },
            UiEvent::Plot(e) => {
                match e {
                    Some(PickEvent::Pick(i)) => {
                        self.picked_index = Some(i);
                    },
                    Some(PickEvent::ClearPick) => {
                        self.picked_index = None;
                    },
                    _ => {},
                }
                UiCommand::UpdatePlot(self.picked_index)
            },
            UiEvent::Welcome => {
                proof {
                    assert(false);
                }
                UiCommand::Nothing
            },
        }
    }

    /// The point whose details are shown: the picked one. The picked point
    /// must be one of the loaded points.
    pub fn detail_row(&self) -> (r: Option<usize>)
        requires
            self.picked_index matches Some(p) ==> (self.point_count matches Some(n) && p < n),
        ensures
            r == self.picked_index,
            r matches Some(p) ==> (self.point_count matches Some(n) && p < n),
    {
        self.picked_index
    }
}

} // verus!
