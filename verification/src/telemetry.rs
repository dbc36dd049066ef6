use vstd::prelude::*;

verus! {

/// A request to a progress bar.
pub enum BarEvent {
    Inc(u64),
    SetPos(u64),
    SetLen(u64),
    AddLen(u64),
    SetMsg(String),
    Finish(String),
}

/// What a spinner does with a request: spinners only know how to finish.
pub enum SpinnerStep {
    Finish(String),
    Reject,
}

impl BarEvent {
    /// After this request the bar is done and stops listening.
    pub fn ends_bar(&self) -> (r: bool)
        ensures
            r <==> self is Finish,
    {
        match self {
            BarEvent::Finish(_) => true,
            _ => false,
        }
    }

    /// A spinner finishes with the message of a `Finish` request and rejects
    /// every other request.
    pub fn spinner_step(self) -> (r: SpinnerStep)
        ensures
            match self {
                BarEvent::Finish(m) => r == SpinnerStep::Finish(m),
                _ => r is Reject,
            },
    {
        match self {
            BarEvent::Finish(m) => SpinnerStep::Finish(m),
            _ => SpinnerStep::Reject,
        }
    }
}

/// Whether the progress bar that counts data has been created. It is created
/// lazily, on the first count that arrives.
pub struct CountingBar {
    pub created: bool,
}

impl CountingBar {
    /// No bar yet.
    pub fn new() -> (r: Self)
        ensures
            !r.created,
    {
        CountingBar { created: false }
    }

    /// A count arrived (new data or processed data): says whether the bar
    /// must be created now; afterwards it exists.
    pub fn on_count(&mut self) -> (create: bool)
        ensures
            create == !old(self).created,
            final(self).created,
    {
        let create = !self.created;
        self.created = true;
        create
    }

    /// When the events end, the bar is finished if there is one.
    pub fn finish_at_end(&self) -> (r: bool)
        ensures
            r == self.created,
    {
        self.created
    }
}

} // verus!
