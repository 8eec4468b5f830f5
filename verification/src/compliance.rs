//! Compliance checks for pipeline components.
//!
//! A component built on the engine is expected to emit named lifecycle
//! events and to increment declared counter metrics while it processes
//! data. `ComponentTests` describes one such expectation set; checking it
//! against a recorded `EventRecorder` and a captured metric snapshot
//! yields the list of violations. All bookkeeping is explicit: the caller
//! owns the recorder and the snapshot, and nothing here touches global
//! state.

use vstd::prelude::*;

verus! {

/// Whether `s` ends with the suffix `p`.
pub open spec fn spec_ends_with(s: Seq<char>, p: Seq<char>) -> bool {
    p.len() <= s.len() && s.subrange(s.len() - p.len(), s.len() as int) == p
}

/// Whether `s` starts with the suffix `p`, character by character.
pub fn str_ends_with(s: &str, p: &str) -> (r: bool)
    ensures
        r == spec_ends_with(s@, p@),
{
    let sl = s.unicode_len();
    let pl = p.unicode_len();
    if pl > sl {
        return false;
    }
    let off = sl - pl;
    let mut i: usize = 0;
    while i < pl
        invariant
            i <= pl,
            pl <= sl,
            off == sl - pl,
            sl == s@.len(),
            pl == p@.len(),
            forall|l: int| 0 <= l < i ==> s@[off + l] == p@[l],
        decreases pl - i,
    {
        if s.get_char(off + i) != p.get_char(i) {
            proof {
                assert(s@.subrange(off as int, sl as int)[i as int] == s@[off + i]);
            }
            return false;
        }
        i += 1;
    }
    proof {
        assert(s@.subrange(off as int, sl as int) =~= p@);
    }
    true
}

/// The recorded lifecycle event names of one component run.
///
/// An explicit accumulator: the test owns it and passes it to the code
/// under test, instead of any implicit thread-scoped storage.
pub struct EventRecorder {
    /// The normalized names, in order of first recording.
    pub events: Vec<String>,
}

/// The views of a vector of strings, element-wise.
pub open spec fn string_views(v: Seq<String>) -> Seq<Seq<char>>
    decreases v,
{
    if v.len() == 0 {
        Seq::empty()
    } else {
        string_views(v.drop_last()).push(v.last()@)
    }
}

/// `string_views` is the element-wise view.
pub proof fn lemma_string_views(v: Seq<String>)
    ensures
        string_views(v).len() == v.len(),
        forall|i: int| 0 <= i < v.len() ==> string_views(v)[i] == v[i]@,
    decreases v,
{
    if v.len() > 0 {
        lemma_string_views(v.drop_last());
    }
}

/// Prepare an event recorder for one component test run.
pub fn init(recorder: &mut EventRecorder)
    ensures
        final(recorder).events@.len() == 0,
{
    recorder.events = Vec::new();
}

/// The position of the first `{` in `t`, or `t.len()` when none occurs.
pub open spec fn brace_index(t: Seq<char>) -> int
    decreases t,
{
    if t.len() == 0 {
        0
    } else if t[0] == '{' {
        0
    } else {
        1 + brace_index(t.drop_first())
    }
}

/// Bounds and characterization of `brace_index`.
pub proof fn lemma_brace_index(t: Seq<char>)
    ensures
        0 <= brace_index(t) <= t.len(),
        forall|l: int| 0 <= l < brace_index(t) ==> t[l] != '{',
        brace_index(t) < t.len() ==> t[brace_index(t)] == '{',
    decreases t,
{
    if t.len() > 0 && t[0] != '{' {
        lemma_brace_index(t.drop_first());
        let b = brace_index(t.drop_first());
        assert forall|l: int| 0 <= l < brace_index(t) implies t[l] != '{' by {
            if l > 0 {
                assert(t.drop_first()[l - 1] != '{');
            }
        }
        if b < t.drop_first().len() {
            assert(t[1 + b] == t.drop_first()[b]);
        }
    }
}

/// The recorded form of a raw event rendering: any leading `&` removed,
/// and everything from the first `{` on cut off.
pub open spec fn normalized_event(s: Seq<char>) -> Seq<char> {
    let t = if s.len() > 0 && s[0] == '&' {
        s.subrange(1, s.len() as int)
    } else {
        s
    };
    t.subrange(0, brace_index(t))
}

/// Record one emitted lifecycle event, given its raw rendering: the
/// reference sigil and the `{ ... }` field block are stripped, and the
/// remaining name is appended to the recorder.
pub fn record_internal_event(recorder: &mut EventRecorder, event: &str)
    ensures
        string_views(final(recorder).events@)
            == string_views(old(recorder).events@).push(normalized_event(event@)),
{
    let len = event.unicode_len();
    let start: usize = if len > 0 && event.get_char(0) == '&' {
        1
    } else {
        0
    };
    let ghost t = if start == 1 { event@.subrange(1, len as int) } else { event@ };
    proof {
        lemma_brace_index(t);
    }
    let mut end: usize = len;
    let mut i: usize = start;
    while i < len && end == len
        invariant
            start <= i <= len,
            end <= len,
            len == event@.len(),
            start == 1 ==> len > 0 && event@[0] == '&' && t == event@.subrange(1, len as int),
            start == 0 ==> t == event@,
            t.len() == len - start,
            forall|l: int| 0 <= l < t.len() ==> t[l] == event@[start + l],
            end == len ==> forall|l: int| 0 <= l < i - start ==> t[l] != '{',
            end < len ==> start <= end && i == end && t[end - start] == '{'
                && (forall|l: int| 0 <= l < end - start ==> t[l] != '{'),
        decreases len - i, (if end == len { 1int } else { 0int }),
    {
        if event.get_char(i) == '{' {
            end = i;
        } else {
            i += 1;
        }
    }
    proof {
        lemma_brace_index(t);
        let b = brace_index(t);
        if end == len {
            assert(forall|l: int| 0 <= l < t.len() ==> t[l] != '{');
            assert(b == t.len()) by {
                if b < t.len() {
                    assert(t[b] == '{');
                }
            }
        } else {
            assert(t[end - start] == '{');
            assert(b == end - start) by {
                if b < end - start {
                    assert(t[b] != '{');
                } else if b > end - start {
                    assert(t[end - start] != '{');
                }
            }
        }
        assert(t.subrange(0, brace_index(t)) =~= event@.subrange(start as int, end as int));
    }
    let name = String::from_str(event.substring_char(start, end));
    let ghost before = recorder.events@;
    recorder.events.push(name);
    proof {
        assert(recorder.events@.drop_last() =~= before);
        assert(recorder.events@.last()@ == normalized_event(event@));
        assert(string_views(recorder.events@)
            == string_views(before).push(normalized_event(event@)));
    }
}

/// The value carried by a captured metric; only counters take part in
/// the compliance checks.
#[derive(Clone, Copy, PartialEq, Eq, Structural, Debug)]
pub enum MetricValue {
    /// A monotonically increasing count.
    Counter,
    /// A point-in-time measurement.
    Gauge,
}

/// One captured metric: its name, value class, and optional tag pairs.
pub struct Metric {
    /// The metric's registered name.
    pub name: String,
    /// The metric's value class.
    pub value: MetricValue,
    /// The metric's tag names and values, if it carries any.
    pub tags: Option<Vec<(String, String)>>,
}

/// The mathematical shape of a captured metric.
pub struct MetricView {
    /// The metric's registered name.
    pub name: Seq<char>,
    /// The metric's value class.
    pub value: MetricValue,
    /// The metric's tag pairs, if any.
    pub tags: Option<Seq<(Seq<char>, Seq<char>)>>,
}

/// The views of a vector of tag pairs, element-wise.
pub open spec fn tag_views(v: Seq<(String, String)>) -> Seq<(Seq<char>, Seq<char>)>
    decreases v,
{
    if v.len() == 0 {
        Seq::empty()
    } else {
        tag_views(v.drop_last()).push((v.last().0@, v.last().1@))
    }
}

/// `tag_views` is the element-wise view.
pub proof fn lemma_tag_views(v: Seq<(String, String)>)
    ensures
        tag_views(v).len() == v.len(),
        forall|i: int| 0 <= i < v.len() ==> tag_views(v)[i] == (v[i].0@, v[i].1@),
    decreases v,
{
    if v.len() > 0 {
        lemma_tag_views(v.drop_last());
    }
}

impl View for Metric {
    type V = MetricView;

    open spec fn view(&self) -> MetricView {
        MetricView {
            name: self.name@,
            value: self.value,
            tags: match self.tags {
                Option::Some(ts) => Option::Some(tag_views(ts@)),
                Option::None => Option::None,
            },
        }
    }
}

/// The views of a vector of metrics, element-wise.
pub open spec fn metric_views(v: Seq<Metric>) -> Seq<MetricView>
    decreases v,
{
    if v.len() == 0 {
        Seq::empty()
    } else {
        metric_views(v.drop_last()).push(v.last()@)
    }
}

/// `metric_views` is the element-wise view.
pub proof fn lemma_metric_views(v: Seq<Metric>)
    ensures
        metric_views(v).len() == v.len(),
        forall|i: int| 0 <= i < v.len() ==> metric_views(v)[i] == v[i]@,
    decreases v,
{
    if v.len() > 0 {
        lemma_metric_views(v.drop_last());
    }
}

/// Whether some tag pair of `ts` is named `name`.
pub open spec fn tag_name_present(ts: Seq<(Seq<char>, Seq<char>)>, name: Seq<char>) -> bool {
    exists|i: int| 0 <= i < ts.len() && (#[trigger] ts[i]).0 == name
}

/// Whether a metric carries every one of the given tag names; a metric
/// without tags passes exactly when no names are required.
pub open spec fn spec_has_tags(m: MetricView, names: Seq<Seq<char>>) -> bool {
    match m.tags {
        Option::Some(ts) => forall|n: int| 0 <= n < names.len()
            ==> tag_name_present(ts, #[trigger] names[n]),
        Option::None => names.len() == 0,
    }
}

/// Whether the metric holds all the given tag names.
pub fn has_tags(metric: &Metric, names: &Vec<String>) -> (r: bool)
    ensures
        r == spec_has_tags(metric@, string_views(names@)),
{
    let ghost tsv = metric@.tags;
    let ghost nvs = string_views(names@);
    match &metric.tags {
        Option::Some(ts) => {
            proof {
                lemma_string_views(names@);
                lemma_tag_views(ts@);
                assert(tsv matches Some(m) && m.len() == ts@.len());
            }
            let mut n: usize = 0;
            while n < names.len()
                invariant
                    n <= names@.len(),
                    nvs == string_views(names@),
                    nvs.len() == names@.len(),
                    tsv == metric@.tags,
                    tsv matches Some(m) && m.len() == ts@.len()
                        && (forall|l: int| 0 <= l < ts@.len()
                            ==> (#[trigger] m[l]) == (ts@[l].0@, ts@[l].1@)),
                    forall|l: int| 0 <= l < n
                        ==> tag_name_present(tsv->Some_0, #[trigger] nvs[l]),
                decreases names@.len() - n,
            {
                proof {
                    lemma_string_views(names@);
                    lemma_tag_views(ts@);
                }
                let mut i: usize = 0;
                let mut found = false;
                while i < ts.len()
                    invariant
                        i <= ts@.len(),
                        n < names@.len(),
                        nvs == string_views(names@),
                        nvs.len() == names@.len(),
                        tsv == metric@.tags,
                        tsv matches Some(m) && m.len() == ts@.len()
                            && (forall|l: int| 0 <= l < ts@.len()
                                ==> (#[trigger] m[l]) == (ts@[l].0@, ts@[l].1@)),
                        found ==> tag_name_present(tsv->Some_0, nvs[n as int]),
                        !found ==> forall|l: int| 0 <= l < i
                            ==> (#[trigger] tsv->Some_0[l]).0 != nvs[n as int],
                    decreases ts@.len() - i,
                {
                    proof {
                        lemma_string_views(names@);
                        lemma_tag_views(ts@);
                        assert(tsv->Some_0[i as int].0 == ts@[i as int].0@);
                        assert(nvs[n as int] == names@[n as int]@);
                    }
                    if !found && ts[i].0 == names[n] {
                        found = true;
                    }
                    i += 1;
                }
                if !found {
                    proof {
                        assert(!tag_name_present(tsv->Some_0, nvs[n as int])) by {
                            if tag_name_present(tsv->Some_0, nvs[n as int]) {
                                let w = choose|i2: int| 0 <= i2 < tsv->Some_0.len()
                                    && (#[trigger] tsv->Some_0[i2]).0 == nvs[n as int];
                                assert(tsv->Some_0[w].0 != nvs[n as int]);
                            }
                        };
                        assert(!spec_has_tags(metric@, nvs));
                    }
                    return false;
                }
                n += 1;
            }
            proof {
                assert forall|n2: int| 0 <= n2 < nvs.len()
                    implies tag_name_present(tsv->Some_0, #[trigger] nvs[n2]) by {
                    assert(0 <= n2 < n);
                }
                assert(spec_has_tags(metric@, nvs));
            }
            true
        },
        Option::None => {
            proof {
                lemma_string_views(names@);
            }
            names.len() == 0
        },
    }
}

/// One violation of a component's compliance expectations.
pub enum ComplianceError {
    /// No recorded event ends with the expected name.
    MissingEvent {
        /// The expected event name suffix.
        name: String,
    },
    /// No captured counter metric has the expected name and tags.
    MissingMetric {
        /// The expected metric name.
        name: String,
        /// The tag names the counter was expected to carry.
        tags: Vec<String>,
    },
}

/// The mathematical shape of a compliance violation.
pub enum ComplianceErrorView {
    /// No recorded event ends with the expected name.
    MissingEvent {
        /// The expected event name suffix.
        name: Seq<char>,
    },
    /// No captured counter metric has the expected name and tags.
    MissingMetric {
        /// The expected metric name.
        name: Seq<char>,
        /// The expected tag names.
        tags: Seq<Seq<char>>,
    },
}

impl View for ComplianceError {
    type V = ComplianceErrorView;

    open spec fn view(&self) -> ComplianceErrorView {
        match self {
            ComplianceError::MissingEvent { name } => (ComplianceErrorView::MissingEvent {
                name: name@,
            }),
            ComplianceError::MissingMetric { name, tags } => (ComplianceErrorView::MissingMetric {
                name: name@,
                tags: string_views(tags@),
            }),
        }
    }
}

/// The views of a vector of violations, element-wise.
pub open spec fn error_views(v: Seq<ComplianceError>) -> Seq<ComplianceErrorView>
    decreases v,
{
    if v.len() == 0 {
        Seq::empty()
    } else {
        error_views(v.drop_last()).push(v.last()@)
    }
}

/// `error_views` is the element-wise view.
pub proof fn lemma_error_views(v: Seq<ComplianceError>)
    ensures
        error_views(v).len() == v.len(),
        forall|i: int| 0 <= i < v.len() ==> error_views(v)[i] == v[i]@,
    decreases v,
{
    if v.len() > 0 {
        lemma_error_views(v.drop_last());
    }
}

/// Whether some recorded event ends with the expected name.
pub open spec fn some_event_matches(events: Seq<Seq<char>>, name: Seq<char>) -> bool {
    exists|i: int| 0 <= i < events.len() && spec_ends_with(#[trigger] events[i], name)
}

/// The violations for the expected event names absent from the record.
pub open spec fn missing_event_errors(events: Seq<Seq<char>>, names: Seq<Seq<char>>)
    -> Seq<ComplianceErrorView>
    decreases names,
{
    if names.len() == 0 {
        Seq::empty()
    } else {
        let init = missing_event_errors(events, names.drop_last());
        if some_event_matches(events, names.last()) {
            init
        } else {
            init.push(ComplianceErrorView::MissingEvent { name: names.last() })
        }
    }
}

/// Whether a captured metric is a counter with this name and these tags.
pub open spec fn metric_matches(m: MetricView, name: Seq<char>, tags: Seq<Seq<char>>) -> bool {
    m.value is Counter && m.name == name && spec_has_tags(m, tags)
}

/// Whether some captured metric is a matching counter.
pub open spec fn some_metric_matches(
    metrics: Seq<MetricView>,
    name: Seq<char>,
    tags: Seq<Seq<char>>,
) -> bool {
    exists|i: int| 0 <= i < metrics.len() && metric_matches(#[trigger] metrics[i], name, tags)
}

/// The violations for the expected counters absent from the snapshot.
pub open spec fn missing_counter_errors(
    metrics: Seq<MetricView>,
    names: Seq<Seq<char>>,
    tags: Seq<Seq<char>>,
) -> Seq<ComplianceErrorView>
    decreases names,
{
    if names.len() == 0 {
        Seq::empty()
    } else {
        let init = missing_counter_errors(metrics, names.drop_last(), tags);
        if some_metric_matches(metrics, names.last(), tags) {
            init
        } else {
            init.push(ComplianceErrorView::MissingMetric { name: names.last(), tags: tags })
        }
    }
}

/// The compliance checking state for one component run: the captured
/// metric snapshot and the violations found so far.
pub struct ComponentTester {
    /// The captured metric snapshot under inspection.
    pub metrics: Vec<Metric>,
    /// The violations found so far, in checking order.
    pub errors: Vec<ComplianceError>,
}

impl ComponentTester {
    /// A tester over one captured metric snapshot, with no violations yet.
    pub fn new(metrics: Vec<Metric>) -> (r: ComponentTester)
        ensures
            r.metrics == metrics,
            r.errors@.len() == 0,
    {
        ComponentTester { metrics, errors: Vec::new() }
    }

    /// Check that each expected event name is the suffix of some recorded
    /// event; append one violation per name that is not.
    pub fn emitted_all_events(&mut self, recorder: &EventRecorder, names: &Vec<String>)
        ensures
            final(self).metrics == old(self).metrics,
            error_views(final(self).errors@) == error_views(old(self).errors@)
                + missing_event_errors(string_views(recorder.events@), string_views(names@)),
    {
        let ghost evs = string_views(recorder.events@);
        let ghost nvs = string_views(names@);
        let ghost errs0 = error_views(self.errors@);
        proof {
            lemma_string_views(recorder.events@);
            lemma_string_views(names@);
        }
        let mut n: usize = 0;
        while n < names.len()
            invariant
                n <= names@.len(),
                evs == string_views(recorder.events@),
                evs.len() == recorder.events@.len(),
                nvs == string_views(names@),
                nvs.len() == names@.len(),
                self.metrics == old(self).metrics,
                errs0 == error_views(old(self).errors@),
                error_views(self.errors@) == errs0
                    + missing_event_errors(evs, nvs.take(n as int)),
            decreases names@.len() - n,
        {
            proof {
                lemma_string_views(recorder.events@);
                lemma_string_views(names@);
            }
            let mut i: usize = 0;
            let mut found = false;
            while i < recorder.events.len()
                invariant
                    i <= recorder.events@.len(),
                    n < names@.len(),
                    evs == string_views(recorder.events@),
                    evs.len() == recorder.events@.len(),
                    nvs == string_views(names@),
                    nvs.len() == names@.len(),
                    found ==> some_event_matches(evs, nvs[n as int]),
                    !found ==> forall|l: int| 0 <= l < i
                        ==> !spec_ends_with(#[trigger] evs[l], nvs[n as int]),
                decreases recorder.events@.len() - i,
            {
                proof {
                    lemma_string_views(recorder.events@);
                    lemma_string_views(names@);
                    assert(evs[i as int] == recorder.events@[i as int]@);
                    assert(nvs[n as int] == names@[n as int]@);
                }
                if !found && str_ends_with(recorder.events[i].as_str(), names[n].as_str()) {
                    found = true;
                }
                i += 1;
            }
            let ghost before = error_views(self.errors@);
            let ghost prev = self.errors@;
            if !found {
                proof {
                    lemma_string_views(names@);
                    assert(!some_event_matches(evs, nvs[n as int]));
                }
                let name = names[n].clone();
                self.errors.push(ComplianceError::MissingEvent { name });
                proof {
                    assert(self.errors@.drop_last() =~= prev);
                    assert(self.errors@.last()@ == (ComplianceErrorView::MissingEvent {
                        name: nvs[n as int],
                    }));
                    assert(error_views(self.errors@) == before.push(
                        ComplianceErrorView::MissingEvent { name: nvs[n as int] }));
                }
            }
            proof {
                assert(nvs.take(n + 1).drop_last() =~= nvs.take(n as int));
                assert(nvs.take(n + 1).last() == nvs[n as int]);
                assert(error_views(self.errors@) =~= errs0
                    + missing_event_errors(evs, nvs.take(n + 1)));
            }
            n += 1;
        }
        proof {
            assert(nvs.take(names@.len() as int) =~= nvs);
        }
    }

    /// Check that each expected counter name is matched by some captured
    /// counter carrying the given tags; append one violation per name
    /// that is not.
    pub fn emitted_all_counters(&mut self, names: &Vec<String>, tags: &Vec<String>)
        ensures
            final(self).metrics == old(self).metrics,
            error_views(final(self).errors@) == error_views(old(self).errors@)
                + missing_counter_errors(
                    metric_views(old(self).metrics@),
                    string_views(names@),
                    string_views(tags@)),
    {
        let ghost mvs = metric_views(self.metrics@);
        let ghost nvs = string_views(names@);
        let ghost tvs = string_views(tags@);
        let ghost errs0 = error_views(self.errors@);
        proof {
            lemma_metric_views(self.metrics@);
            lemma_string_views(names@);
            lemma_string_views(tags@);
        }
        let mut n: usize = 0;
        while n < names.len()
            invariant
                n <= names@.len(),
                mvs == metric_views(self.metrics@),
                mvs.len() == self.metrics@.len(),
                self.metrics == old(self).metrics,
                nvs == string_views(names@),
                tvs == string_views(tags@),
                nvs.len() == names@.len(),
                tvs.len() == tags@.len(),
                errs0 == error_views(old(self).errors@),
                error_views(self.errors@) == errs0
                    + missing_counter_errors(mvs, nvs.take(n as int), tvs),
            decreases names@.len() - n,
        {
            proof {
                lemma_metric_views(self.metrics@);
                lemma_string_views(names@);
            }
            let mut i: usize = 0;
            let mut found = false;
            while i < self.metrics.len()
                invariant
                    i <= self.metrics@.len(),
                    n < names@.len(),
                    mvs == metric_views(self.metrics@),
                    mvs.len() == self.metrics@.len(),
                    self.metrics == old(self).metrics,
                    nvs == string_views(names@),
                    nvs.len() == names@.len(),
                    tvs == string_views(tags@),
                    found ==> some_metric_matches(mvs, nvs[n as int], tvs),
                    !found ==> forall|l: int| 0 <= l < i
                        ==> !metric_matches(#[trigger] mvs[l], nvs[n as int], tvs),
                decreases self.metrics@.len() - i,
            {
                proof {
                    lemma_metric_views(self.metrics@);
                    lemma_string_views(names@);
                    assert(mvs[i as int] == self.metrics@[i as int]@);
                    assert(nvs[n as int] == names@[n as int]@);
                }
                if !found {
                    let is_counter = match self.metrics[i].value {
                        MetricValue::Counter => true,
                        MetricValue::Gauge => false,
                    };
                    if is_counter && self.metrics[i].name == names[n]
                        && has_tags(&self.metrics[i], tags) {
                        found = true;
                        proof {
                            assert(metric_matches(mvs[i as int], nvs[n as int], tvs));
                        }
                    } else {
                        proof {
                            assert(!metric_matches(mvs[i as int], nvs[n as int], tvs));
                        }
                    }
                }
                i += 1;
            }
            let ghost before = error_views(self.errors@);
            let ghost prev = self.errors@;
            if !found {
                proof {
                    lemma_metric_views(self.metrics@);
                    assert(mvs.len() == self.metrics@.len());
                    assert(!some_metric_matches(mvs, nvs[n as int], tvs));
                }
                let name = names[n].clone();
                let mut etags: Vec<String> = Vec::new();
                proof {
                    lemma_string_views(tags@);
                    assert(string_views(etags@) =~= tvs.take(0int));
                }
                let mut t: usize = 0;
                while t < tags.len()
                    invariant
                        t <= tags@.len(),
                        tvs == string_views(tags@),
                        tvs.len() == tags@.len(),
                        string_views(etags@) == tvs.take(t as int),
                    decreases tags@.len() - t,
                {
                    let ghost pre = etags@;
                    etags.push(tags[t].clone());
                    proof {
                        lemma_string_views(tags@);
                        assert(etags@.drop_last() =~= pre);
                        assert(etags@.last()@ == tvs[t as int]);
                        assert(string_views(etags@) == string_views(pre).push(tvs[t as int]));
                        assert(string_views(pre).push(tvs[t as int]) =~= tvs.take(t + 1));
                    }
                    t += 1;
                }
                proof {
                    assert(tvs.take(tags@.len() as int) =~= tvs);
                }
                self.errors.push(ComplianceError::MissingMetric { name, tags: etags });
                proof {
                    assert(self.errors@.drop_last() =~= prev);
                    assert(self.errors@.last()@ == (ComplianceErrorView::MissingMetric {
                        name: nvs[n as int],
                        tags: tvs,
                    }));
                    assert(error_views(self.errors@) == before.push(
                        ComplianceErrorView::MissingMetric { name: nvs[n as int], tags: tvs }));
                }
            }
            proof {
                assert(nvs.take(n + 1).drop_last() =~= nvs.take(n as int));
                assert(nvs.take(n + 1).last() == nvs[n as int]);
                assert(error_views(self.errors@) =~= errs0
                    + missing_counter_errors(mvs, nvs.take(n + 1), tvs));
            }
            n += 1;
        }
        proof {
            assert(nvs.take(names@.len() as int) =~= nvs);
        }
    }
}

/// One component's compliance expectations: the lifecycle events it must
/// emit and the counters, tagged and untagged, it must increment.
pub struct ComponentTests {
    /// The event name suffixes that must be emitted.
    pub events: Vec<String>,
    /// The counter names that must appear with the run's tags.
    pub tagged_counters: Vec<String>,
    /// The counter names that must appear, tags or not.
    pub untagged_counters: Vec<String>,
}

impl ComponentTests {
    /// The expectation set every source component must meet: the three
    /// receive/send lifecycle events, the received counters with the
    /// run's tags, and the sent counters with no particular tags.
    pub fn source_tests() -> (r: ComponentTests)
        ensures
            string_views(r.events@) == seq![
                "BytesReceived"@, "EventsReceived"@, "EventsSent"@],
            string_views(r.tagged_counters@) == seq![
                "component_received_bytes_total"@,
                "component_received_events_total"@,
                "component_received_event_bytes_total"@],
            string_views(r.untagged_counters@) == seq![
                "component_sent_events_total"@,
                "component_sent_event_bytes_total"@],
    {
        let mut events: Vec<String> = Vec::new();
        events.push(String::from_str("BytesReceived"));
        events.push(String::from_str("EventsReceived"));
        events.push(String::from_str("EventsSent"));
        let mut tagged: Vec<String> = Vec::new();
        tagged.push(String::from_str("component_received_bytes_total"));
        tagged.push(String::from_str("component_received_events_total"));
        tagged.push(String::from_str("component_received_event_bytes_total"));
        let mut untagged: Vec<String> = Vec::new();
        untagged.push(String::from_str("component_sent_events_total"));
        untagged.push(String::from_str("component_sent_event_bytes_total"));
        proof {
            lemma_string_views(events@);
            lemma_string_views(tagged@);
            lemma_string_views(untagged@);
            assert(string_views(events@) =~= seq![
                "BytesReceived"@, "EventsReceived"@, "EventsSent"@]);
            assert(string_views(tagged@) =~= seq![
                "component_received_bytes_total"@,
                "component_received_events_total"@,
                "component_received_event_bytes_total"@]);
            assert(string_views(untagged@) =~= seq![
                "component_sent_events_total"@,
                "component_sent_event_bytes_total"@]);
        }
        ComponentTests { events, tagged_counters: tagged, untagged_counters: untagged }
    }

    /// Run the expectations against a recorded run and a captured metric
    /// snapshot; the result lists every violation, in checking order, and
    /// is empty exactly when the component complied.
    pub fn check(&self, metrics: Vec<Metric>, recorder: &EventRecorder, tags: &Vec<String>)
        -> (r: Vec<ComplianceError>)
        ensures
            error_views(r@) == missing_event_errors(
                    string_views(recorder.events@), string_views(self.events@))
                + missing_counter_errors(
                    metric_views(metrics@),
                    string_views(self.tagged_counters@),
                    string_views(tags@))
                + missing_counter_errors(
                    metric_views(metrics@),
                    string_views(self.untagged_counters@),
                    Seq::empty()),
    {
        let mut tester = ComponentTester::new(metrics);
        tester.emitted_all_events(recorder, &self.events);
        tester.emitted_all_counters(&self.tagged_counters, tags);
        let no_tags: Vec<String> = Vec::new();
        tester.emitted_all_counters(&self.untagged_counters, &no_tags);
        proof {
            assert(string_views(no_tags@) == Seq::<Seq<char>>::empty());
            assert(error_views(tester.errors@) =~= missing_event_errors(
                    string_views(recorder.events@), string_views(self.events@))
                + missing_counter_errors(
                    metric_views(metrics@),
                    string_views(self.tagged_counters@),
                    string_views(tags@))
                + missing_counter_errors(
                    metric_views(metrics@),
                    string_views(self.untagged_counters@),
                    Seq::empty()));
        }
        tester.errors
    }
}

} // verus!
