use vstd::prelude::*;

verus! {

/// A value paired with the log of the steps that produced it.
///
/// Every step run through [`Pipeline::bind`] or [`Pipeline::map`] appends
/// its description to the log before the logs of whatever the step itself
/// recorded.
pub struct Pipeline<T> {
    pub value: T,
    pub logs: Vec<String>,
}

/// The log after a step described by `desc` whose own pipeline logged
/// `next`, following a log `logs`.
pub open spec fn bound_log(logs: Seq<Seq<char>>, desc: Seq<char>, next: Seq<Seq<char>>) -> Seq<Seq<char>> {
    logs.push(desc) + next
}

impl<T> Pipeline<T> {
    /// The log as a sequence of character sequences.
    pub open spec fn log_view(&self) -> Seq<Seq<char>> {
        self.logs.deep_view()
    }

    /// Wraps a value with an empty log.
    pub fn inject(value: T) -> (r: Self)
        ensures
            r.value == value,
            r.log_view() == Seq::<Seq<char>>::empty(),
    {
        Self { value, logs: Vec::new() }
    }

    /// Completes a step: `logs` is the log from before the step, `desc`
    /// describes the step and `next` is the pipeline the step produced.
    pub fn after_step(logs: Vec<String>, desc: &str, next: Self) -> (r: Self)
        ensures
            r.value == next.value,
            r.log_view() == bound_log(logs.deep_view(), desc@, next.log_view()),
    {
        let ghost old_logs = logs.deep_view();
        let mut logs = logs;
        logs.push(desc.to_owned());
        assert(logs.deep_view() =~= old_logs.push(desc@));
        let mut next = next;
        let ghost next_logs = next.log_view();
        let ghost before = logs.deep_view();
        logs.append(&mut next.logs);
        assert(logs.deep_view() =~= before + next_logs);
        Pipeline { value: next.value, logs }
    }

    /// Runs `f` on the value; the log becomes this log, then `desc`, then the
    /// log of the pipeline that `f` returned.
    pub fn bind<U, F>(self, desc: &str, f: F) -> (r: Pipeline<U>) where F: FnOnce(T) -> Pipeline<U>
        requires
            f.requires((self.value,)),
        ensures
            exists|next: Pipeline<U>|
                {
                    &&& #[trigger] f.ensures((self.value,), next)
                    &&& r.value == next.value
                    &&& r.log_view() == bound_log(self.log_view(), desc@, next.log_view())
                },
    {
        let Pipeline { value, logs } = self;
        let next = f(value);
        Pipeline::after_step(logs, desc, next)
    }

    /// Applies `f` to the value; the log gains exactly `desc`.
    pub fn map<U, F>(self, desc: &str, f: F) -> (r: Pipeline<U>) where F: FnOnce(T) -> U
        requires
            f.requires((self.value,)),
        ensures
            f.ensures((self.value,), r.value),
            r.log_view() == bound_log(self.log_view(), desc@, Seq::empty()),
    {
        let ghost v = self.value;
        let ghost old_logs = self.log_view();
        let wrap = (move |val: T| -> (p: Pipeline<U>)
            requires
                f.requires((val,)),
            ensures
                f.ensures((val,), p.value),
                p.log_view().len() == 0,
            {
                Pipeline::inject(f(val))
            });
        let r = self.bind(desc, wrap);
        assert(r.log_view() =~= bound_log(old_logs, desc@, Seq::empty()));
        r
    }
}

/// Binding a step on a freshly injected value logs the step's description
/// followed by whatever the step logged.
pub proof fn law_bind_after_inject(desc: Seq<char>, next: Seq<Seq<char>>)
    ensures
        bound_log(Seq::empty(), desc, next) == seq![desc] + next,
{
    assert(bound_log(Seq::empty(), desc, next) =~= seq![desc] + next);
}

/// Chaining two steps logs the same whether the second step is bound after
/// the first or inside it: `p.bind(d1, f).bind(d2, g)` and
/// `p.bind(d1, |x| f(x).bind(d2, g))` keep the same log.
pub proof fn law_bind_associative(
    logs: Seq<Seq<char>>,
    d1: Seq<char>,
    first: Seq<Seq<char>>,
    d2: Seq<char>,
    second: Seq<Seq<char>>,
)
    ensures
        bound_log(bound_log(logs, d1, first), d2, second) == bound_log(logs, d1, bound_log(first, d2, second)),
{
    assert(bound_log(bound_log(logs, d1, first), d2, second) =~= bound_log(logs, d1, bound_log(first, d2, second)));
}

/// Every step adds its description to the log: the log of a pipeline after
/// a step is one entry longer than the two logs it joins.
pub proof fn law_bind_log_length(logs: Seq<Seq<char>>, desc: Seq<char>, next: Seq<Seq<char>>)
    ensures
        bound_log(logs, desc, next).len() == logs.len() + 1 + next.len(),
        bound_log(logs, desc, next)[logs.len() as int] == desc,
{
}

/// A pipeline as values: its value and its log.
pub open spec fn step_of<U>(p: Pipeline<U>) -> (U, Seq<Seq<char>>) {
    (p.value, p.log_view())
}

/// Binding a step, described by `desc`, that maps a value to a value and a
/// log.
pub open spec fn bound<T, U>(
    start: (T, Seq<Seq<char>>),
    desc: Seq<char>,
    step: spec_fn(T) -> (U, Seq<Seq<char>>),
) -> (U, Seq<Seq<char>>) {
    let next = step(start.0);
    (next.0, bound_log(start.1, desc, next.1))
}

/// Mapping a function over the value with the description `desc`.
pub open spec fn mapped<T, U>(start: (T, Seq<Seq<char>>), desc: Seq<char>, f: spec_fn(T) -> U) -> (U, Seq<Seq<char>>) {
    (f(start.0), bound_log(start.1, desc, Seq::empty()))
}

/// Binding two steps in sequence gives the same value and log as binding
/// the first step followed, inside it, by the second.
pub proof fn law_bind_associative_values<T, U, V>(
    start: (T, Seq<Seq<char>>),
    d1: Seq<char>,
    f: spec_fn(T) -> (U, Seq<Seq<char>>),
    d2: Seq<char>,
    g: spec_fn(U) -> (V, Seq<Seq<char>>),
)
    ensures
        bound(bound(start, d1, f), d2, g) == bound(start, d1, |x: T| bound(f(x), d2, g)),
{
    law_bind_associative(start.1, d1, f(start.0).1, d2, g(f(start.0).0).1);
}

/// Mapping `f` is binding the step that injects `f`'s result.
pub proof fn law_map_is_bind_of_inject<T, U>(start: (T, Seq<Seq<char>>), desc: Seq<char>, f: spec_fn(T) -> U)
    ensures
        mapped(start, desc, f) == bound(start, desc, |v: T| (f(v), Seq::<Seq<char>>::empty())),
{
}

/// What `bind` returns, for a step whose results are given by `model`, is
/// `bound` of the pipeline and `model`.
pub proof fn law_bind_follows_model<T, U, F: FnOnce(T) -> Pipeline<U>>(
    p: Pipeline<T>,
    desc: Seq<char>,
    f: F,
    model: spec_fn(T) -> (U, Seq<Seq<char>>),
    r: Pipeline<U>,
)
    requires
        forall|n: Pipeline<U>| #[trigger] f.ensures((p.value,), n) ==> step_of(n) == model(p.value),
        exists|next: Pipeline<U>|
            {
                &&& #[trigger] f.ensures((p.value,), next)
                &&& r.value == next.value
                &&& r.log_view() == bound_log(p.log_view(), desc, next.log_view())
            },
    ensures
        step_of(r) == bound(step_of(p), desc, model),
{
    let next = choose|next: Pipeline<U>|
        {
            &&& #[trigger] f.ensures((p.value,), next)
            &&& r.value == next.value
            &&& r.log_view() == bound_log(p.log_view(), desc, next.log_view())
        };
    assert(step_of(next) == model(p.value));
}

/// What `map` returns, for a function whose results are given by `model`, is
/// `mapped` of the pipeline and `model`.
pub proof fn law_map_follows_model<T, U, F: FnOnce(T) -> U>(
    p: Pipeline<T>,
    desc: Seq<char>,
    f: F,
    model: spec_fn(T) -> U,
    r: Pipeline<U>,
)
    requires
        forall|u: U| #[trigger] f.ensures((p.value,), u) ==> u == model(p.value),
        f.ensures((p.value,), r.value),
        r.log_view() == bound_log(p.log_view(), desc, Seq::empty()),
    ensures
        step_of(r) == mapped(step_of(p), desc, model),
{
}

} // verus!
