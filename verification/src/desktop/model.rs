//! Looks side by side: how two differ, and the ones an edit can go back to.
use crate::crt::config::{ColorMode, Config, ConfigError, Filter, Fit, Phase};
use crate::crt::settings::{settings, Field, Setting};
use crate::fixed::format_value;
use crate::number::Real32;
use crate::text::{decimal_text, owned, same_text};
use vstd::prelude::*;

verus! {

/// Limits only the canvas, preserving its aspect and the logical signal.
pub fn preview_config(c: &Config, input: (u32, u32), max_side: Option<u32>) -> (r: Result<
    Config,
    ConfigError,
>)
    ensures
        match c.fault_for(input) {
            Some(e) => r == Err::<Config, ConfigError>(e),
            None => r matches Ok(p) && p.alike_but_sizes(*c) && p.signal@ == c.signal@ && p.output@
                == Config::size_text(Config::scaled_size(c.output_of(input)->Ok_0, max_side)),
        },
{
    c.with_max_output_side(input, max_side)
}

// -------------------------------------------------------------------------------------------
// Differences
// -------------------------------------------------------------------------------------------

/// One setting that differs between two looks, written for a person to read.
#[derive(Clone, Debug, PartialEq, Eq)]
pub struct Difference {
    pub setting: String,
    pub from: String,
    pub to: String,
}

/// What a difference says.
pub struct DifferenceView {
    pub setting: Seq<char>,
    pub from: Seq<char>,
    pub to: Seq<char>,
}

impl View for Difference {
    type V = DifferenceView;

    open spec fn view(&self) -> DifferenceView {
        DifferenceView { setting: self.setting@, from: self.from@, to: self.to@ }
    }
}

pub open spec fn fit_name(fit: Fit) -> Seq<char> {
    match fit {
        Fit::Reference => "reference"@,
        Fit::Contain => "contain"@,
        Fit::Cover => "cover"@,
        Fit::Stretch => "stretch"@,
    }
}

pub open spec fn filter_name(filter: Filter) -> Seq<char> {
    match filter {
        Filter::Nearest => "nearest"@,
        Filter::Lanczos => "lanczos"@,
    }
}

pub open spec fn phase_name(phase: Phase) -> Seq<char> {
    match phase {
        Phase::Stable => "stable"@,
        Phase::A => "a"@,
        Phase::B => "b"@,
        Phase::Alternating => "alternating"@,
    }
}

pub open spec fn color_mode_name(mode: ColorMode) -> Seq<char> {
    match mode {
        ColorMode::Reference => "reference"@,
        ColorMode::LinearLight => "linear-light"@,
    }
}

pub open spec fn switch_text(on: bool) -> Seq<char> {
    if on {
        "On"@
    } else {
        "Off"@
    }
}

/// A number as it is listed; one that is not finite cannot be saved.
pub open spec fn number_text(x: Real32) -> Seq<char> {
    if x.finite() {
        crate::fixed::written(x)
    } else {
        "None"@
    }
}

/// Numbers in a row.
pub open spec fn numbers_text(numbers: Seq<Real32>) -> Seq<char>
    decreases numbers.len(),
{
    if numbers.len() == 0 {
        Seq::empty()
    } else if numbers.len() == 1 {
        number_text(numbers[0])
    } else {
        numbers_text(numbers.drop_last()) + ", "@ + number_text(numbers.last())
    }
}

/// The value of a setting in a look, as it is listed. A LUT is a large table; its name is what
/// a person tells them apart by.
pub open spec fn shown(c: Config, setting: Setting) -> Seq<char> {
    let key = setting.key@;
    if let Some(field) = setting.numbers {
        let numbers = c.numbers_of(field);
        if numbers.len() == 0 {
            if field == Field::MaskRepeats {
                "signal"@
            } else {
                "None"@
            }
        } else {
            numbers_text(numbers)
        }
    } else if key == "signal"@ {
        c.signal@
    } else if key == "output"@ {
        c.output@
    } else if key == "fit"@ {
        fit_name(c.fit)
    } else if key == "filter"@ {
        filter_name(c.filter)
    } else if key == "screen_only"@ {
        switch_text(c.screen_only)
    } else if key == "source.crop"@ {
        numbers_text(c.source.crop@)
    } else if key == "source.rotation"@ {
        number_text(c.source.rotation)
    } else if key == "source.zoom"@ {
        number_text(c.source.zoom)
    } else if key == "source.position"@ {
        numbers_text(c.source.position@)
    } else if key == "source.background"@ {
        crate::text::decimal(c.source.background@[0] as nat) + ", "@ + crate::text::decimal(
            c.source.background@[1] as nat,
        ) + ", "@ + crate::text::decimal(c.source.background@[2] as nat)
    } else if key == "source.checkerboard"@ {
        switch_text(c.source.checkerboard)
    } else if key == "lut"@ {
        match c.lut {
            Some(lut) => lut.name@,
            None => "None"@,
        }
    } else if key == "color_mode"@ {
        color_mode_name(c.color_mode)
    } else if key == "mask_antialias"@ {
        switch_text(c.mask_antialias)
    } else if key == "warmup"@ {
        crate::text::decimal(c.warmup as nat)
    } else if key == "phase"@ {
        phase_name(c.phase)
    } else {
        switch_text(c.interlace)
    }
}

/// The settings among some that differ between two looks, in order.
pub open spec fn differing(from: Config, to: Config, settings: Seq<Setting>) -> Seq<DifferenceView>
    decreases settings.len(),
{
    if settings.len() == 0 {
        Seq::empty()
    } else {
        let before = differing(from, to, settings.drop_last());
        let last = settings.last();
        if shown(from, last) == shown(to, last) {
            before
        } else {
            before.push(
                DifferenceView {
                    setting: last.label@,
                    from: shown(from, last),
                    to: shown(to, last),
                },
            )
        }
    }
}

pub open spec fn difference_views(list: Seq<Difference>) -> Seq<DifferenceView> {
    Seq::new(list.len(), |i: int| list[i]@)
}

fn text_of_number(x: Real32) -> (r: String)
    ensures
        r@ == number_text(x),
{
    match format_value(x) {
        Some(text) => text,
        None => owned("None"),
    }
}

fn text_of_numbers(numbers: &[Real32]) -> (r: String)
    ensures
        r@ == numbers_text(numbers@),
{
    let mut r: String = String::new();
    let mut i: usize = 0;
    assert(numbers@.take(0) == Seq::<Real32>::empty());
    while i < numbers.len()
        invariant
            i <= numbers@.len(),
            r@ == numbers_text(numbers@.take(i as int)),
        decreases numbers@.len() - i,
    {
        proof {
            assert(numbers@.take(i + 1).drop_last() == numbers@.take(i as int));
            assert(numbers@.take(i + 1).last() == numbers@[i as int]);
        }
        let text: String = text_of_number(numbers[i]);
        if i > 0 {
            r.append(", ");
            r.append(text.as_str());
        } else {
            r = text;
        }
        i = i + 1;
    }
    assert(numbers@.take(i as int) == numbers@);
    r
}

fn switch(on: bool) -> (r: &'static str)
    ensures
        r@ == switch_text(on),
{
    if on {
        "On"
    } else {
        "Off"
    }
}

fn show(c: &Config, setting: &Setting) -> (r: String)
    ensures
        r@ == shown(*c, *setting),
{
    match setting.numbers {
        Some(field) => {
            let numbers: Vec<Real32> = c.numbers(field);
            if numbers.len() == 0 {
                if field == Field::MaskRepeats {
                    return owned("signal");
                } else {
                    return owned("None");
                }
            }
            return text_of_numbers(numbers.as_slice());
        },
        None => {},
    }
    let key: &str = setting.key;
    if same_text(key, "signal") {
        owned(c.signal.as_str())
    } else if same_text(key, "output") {
        owned(c.output.as_str())
    } else if same_text(key, "fit") {
        owned(
            match c.fit {
                Fit::Reference => "reference",
                Fit::Contain => "contain",
                Fit::Cover => "cover",
                Fit::Stretch => "stretch",
            },
        )
    } else if same_text(key, "filter") {
        owned(
            match c.filter {
                Filter::Nearest => "nearest",
                Filter::Lanczos => "lanczos",
            },
        )
    } else if same_text(key, "screen_only") {
        owned(switch(c.screen_only))
    } else if same_text(key, "source.crop") {
        text_of_numbers(c.source.crop.as_slice())
    } else if same_text(key, "source.rotation") {
        text_of_number(c.source.rotation)
    } else if same_text(key, "source.zoom") {
        text_of_number(c.source.zoom)
    } else if same_text(key, "source.position") {
        text_of_numbers(c.source.position.as_slice())
    } else if same_text(key, "source.background") {
        let mut r: String = decimal_text(c.source.background[0] as u64);
        r.append(", ");
        r.append(decimal_text(c.source.background[1] as u64).as_str());
        r.append(", ");
        r.append(decimal_text(c.source.background[2] as u64).as_str());
        r
    } else if same_text(key, "source.checkerboard") {
        owned(switch(c.source.checkerboard))
    } else if same_text(key, "lut") {
        match &c.lut {
            Some(lut) => owned(lut.name.as_str()),
            None => owned("None"),
        }
    } else if same_text(key, "color_mode") {
        owned(
            match c.color_mode {
                ColorMode::Reference => "reference",
                ColorMode::LinearLight => "linear-light",
            },
        )
    } else if same_text(key, "mask_antialias") {
        owned(switch(c.mask_antialias))
    } else if same_text(key, "warmup") {
        decimal_text(c.warmup as u64)
    } else if same_text(key, "phase") {
        owned(
            match c.phase {
                Phase::Stable => "stable",
                Phase::A => "a",
                Phase::B => "b",
                Phase::Alternating => "alternating",
            },
        )
    } else {
        owned(switch(c.interlace))
    }
}

/// Every setting that differs between `from` and `to`, in the settings panel's order and under
/// its names, both from the table of settings. That table lists every key a preset holds, so a
/// setting added later cannot go unreported.
pub fn differences(from: &Config, to: &Config) -> (r: Vec<Difference>)
    ensures
        difference_views(r@) == differing(*from, *to, crate::crt::settings::table()),
{
    let all: Vec<Setting> = settings();
    let mut r: Vec<Difference> = Vec::new();
    let mut i: usize = 0;
    while i < all.len()
        invariant
            i <= all@.len(),
            difference_views(r@) == differing(*from, *to, all@.take(i as int)),
        decreases all@.len() - i,
    {
        proof {
            assert(all@.take(i + 1).drop_last() == all@.take(i as int));
            assert(all@.take(i + 1).last() == all@[i as int]);
        }
        let was: String = show(from, &all[i]);
        let now: String = show(to, &all[i]);
        if !same_text(was.as_str(), now.as_str()) {
            let ghost before = r@;
            let difference: Difference = Difference {
                setting: owned(all[i].label),
                from: was,
                to: now,
            };
            r.push(difference);
            assert(difference_views(r@) == difference_views(before).push(difference@));
        }
        i = i + 1;
    }
    assert(all@.take(i as int) == all@);
    r
}

/// A look differs from itself in nothing, and what differs one way differs the other.
pub proof fn differences_are_symmetric(a: Config, b: Config, settings: Seq<Setting>)
    ensures
        differing(a, a, settings).len() == 0,
        differing(a, b, settings).len() == differing(b, a, settings).len(),
        forall|i: int|
            0 <= i < differing(a, b, settings).len() ==> {
                let d = #[trigger] differing(a, b, settings)[i];
                differing(b, a, settings)[i] == (DifferenceView {
                    setting: d.setting,
                    from: d.to,
                    to: d.from,
                })
            },
    decreases settings.len(),
{
    if settings.len() > 0 {
        differences_are_symmetric(a, b, settings.drop_last());
    }
}

// -------------------------------------------------------------------------------------------
// History
// -------------------------------------------------------------------------------------------

/// How many looks an edit can go back to.
pub const STEPS: usize = 100;

pub struct History {
    past: Vec<Config>,
    current: Config,
    future: Vec<Config>,
}

/// What a history holds.
pub struct Steps {
    pub past: Seq<Config>,
    pub current: Config,
    pub future: Seq<Config>,
}

impl View for History {
    type V = Steps;

    closed spec fn view(&self) -> Steps {
        Steps { past: self.past@, current: self.current, future: self.future@ }
    }
}

/// The last steps, as many as are kept.
pub open spec fn kept(past: Seq<Config>) -> Seq<Config> {
    if past.len() > STEPS {
        past.skip(1)
    } else {
        past
    }
}

impl Steps {
    /// No more steps are kept, back and forth, than a history holds.
    pub open spec fn wf(self) -> bool {
        self.past.len() + self.future.len() <= STEPS
    }

    /// Whether a history is this one with a look as its current one: what it was before is a
    /// step back, and the steps forward are gone. A look that compares equal is no step.
    pub open spec fn commits(self, new: Steps, c: Config) -> bool {
        if c.equal(self.current) {
            new == self
        } else {
            &&& new.past == kept(self.past.push(self.current))
            &&& new.current.alike(c)
            &&& new.future.len() == 0
        }
    }

    /// Whether going back from a look gives `r`: the look before, with what was current a step
    /// forward. A look that has been edited since is a step of its own.
    pub open spec fn undoes(self, new: Steps, c: Config, r: Option<Config>) -> bool {
        if !c.equal(self.current) {
            &&& r matches Some(previous) && previous.alike(self.current)
            &&& new.past == kept(self.past.push(self.current)).drop_last()
            &&& new.current == self.current
            &&& new.future.len() == 1
            &&& new.future[0].alike(c)
        } else if self.past.len() == 0 {
            r is None && new == self
        } else {
            &&& r matches Some(previous) && previous.alike(self.past.last())
            &&& new == (Steps {
                past: self.past.drop_last(),
                current: self.past.last(),
                future: self.future.push(self.current),
            })
        }
    }

    /// Whether going forward again from a look gives `r`.
    pub open spec fn redoes(self, new: Steps, c: Config, r: Option<Config>) -> bool {
        if !c.equal(self.current) {
            r is None && self.commits(new, c)
        } else if self.future.len() == 0 {
            r is None && new == self
        } else {
            &&& r matches Some(next) && next.alike(self.future.last())
            &&& new == (Steps {
                past: self.past.push(self.current),
                current: self.future.last(),
                future: self.future.drop_last(),
            })
        }
    }
}

impl History {
    pub fn new(c: Config) -> (r: Self)
        ensures
            r@ == (Steps { past: Seq::empty(), current: c, future: Seq::empty() }),
            r@.wf(),
    {
        Self { past: Vec::new(), current: c, future: Vec::new() }
    }

    /// Makes a look the current one.
    pub fn commit(&mut self, c: &Config)
        ensures
            old(self)@.commits(final(self)@, *c),
            old(self)@.wf() ==> final(self)@.wf(),
    {
        if c.same(&self.current) {
            return ;
        }
        let mut taken: Config = c.copy();
        std::mem::swap(&mut self.current, &mut taken);
        self.past.push(taken);
        if self.past.len() > STEPS {
            self.past.remove(0);
            assert(self.past@ =~= old(self)@.past.push(old(self)@.current).skip(1));
        }
        self.future = Vec::new();
    }

    /// Goes a step back from a look, which is kept as a step forward.
    pub fn undo(&mut self, c: &Config) -> (r: Option<Config>)
        ensures
            old(self)@.undoes(final(self)@, *c, r),
            old(self)@.wf() ==> final(self)@.wf(),
    {
        self.commit(c);
        if self.past.len() == 0 {
            return None;
        }
        let ghost before = self@;
        match self.past.pop() {
            None => None,
            Some(previous) => {
                let r: Config = previous.copy();
                let mut taken: Config = previous;
                std::mem::swap(&mut self.current, &mut taken);
                self.future.push(taken);
                proof {
                    if !c.equal(old(self)@.current) {
                        assert(before.past.last() == old(self)@.current);
                    }
                }
                Some(r)
            },
        }
    }

    /// Goes a step forward again.
    pub fn redo(&mut self, c: &Config) -> (r: Option<Config>)
        ensures
            old(self)@.redoes(final(self)@, *c, r),
            old(self)@.wf() ==> final(self)@.wf(),
    {
        self.commit(c);
        match self.future.pop() {
            None => None,
            Some(next) => {
                let r: Config = next.copy();
                let mut taken: Config = next;
                std::mem::swap(&mut self.current, &mut taken);
                self.past.push(taken);
                Some(r)
            },
        }
    }
}

/// Going back and then forward again gives the look that was left, and the history it had.
pub proof fn redo_takes_back_undo(
    first: Steps,
    second: Steps,
    third: Steps,
    c: Config,
    back: Option<Config>,
    shown: Config,
    forward: Option<Config>,
)
    requires
        c.equal(first.current),
        first.past.len() > 0,
        first.undoes(second, c, back),
        shown.equal(second.current),
        second.redoes(third, shown, forward),
    ensures
        third == first,
        forward matches Some(next) && next.alike(first.current),
{
    assert(second.future.drop_last() =~= first.future);
    assert(second.past.push(second.current) =~= first.past);
}

/// A new edit after going back leaves nothing to go forward to.
pub proof fn an_edit_forgets_the_way_forward(
    first: Steps,
    second: Steps,
    third: Steps,
    c: Config,
    shown: Config,
    forward: Option<Config>,
)
    requires
        !c.equal(first.current),
        first.commits(second, c),
        shown.equal(second.current),
        second.redoes(third, shown, forward),
    ensures
        forward is None,
        third == second,
{
}

/// Looks with the same bits compare alike.
proof fn lemma_alike_compares(a: Config, b: Config, x: Config)
    requires
        a.alike(b),
    ensures
        a.equal(x) == b.equal(x),
        x.equal(a) == x.equal(b),
        b.alike(a),
{
    match (a.lut, b.lut) {
        (Some(p), Some(q)) => {
            assert(p.contents().values == q.contents().values);
            assert(p.contents().size == q.contents().size);
        },
        _ => {},
    }
}

/// Making a look the current one again is no step.
pub proof fn committing_again_changes_nothing(
    first: Steps,
    second: Steps,
    third: Steps,
    c: Config,
)
    requires
        c.equal(c),
        first.commits(second, c),
        second.commits(third, c),
    ensures
        third == second,
{
    if !c.equal(first.current) {
        lemma_alike_compares(second.current, c, c);
    }
}

/// Whether a new history of the first look was given the others, one after another, and was as
/// these say after each.
pub open spec fn committed(looks: Seq<Config>, states: Seq<Steps>) -> bool {
    &&& looks.len() > 0
    &&& states.len() == looks.len()
    &&& states[0] == (Steps { past: Seq::empty(), current: looks[0], future: Seq::empty() })
    &&& forall|i: int| 1 <= i < looks.len() ==> #[trigger] commits_at(looks, states, i)
}

pub open spec fn commits_at(looks: Seq<Config>, states: Seq<Steps>, i: int) -> bool {
    states[i - 1].commits(states[i], looks[i])
}

/// Whether a look holds only numbers that compare equal to themselves.
pub open spec fn comparable(c: Config) -> bool {
    c.equal(c)
}

/// Whether a look is another than the one before.
pub open spec fn turns(looks: Seq<Config>, i: int) -> bool {
    !looks[i].equal(looks[i - 1])
}

/// Whether a history was gone back in over and over from the look in use, which is then the one
/// given: how the history was before each step and at the end, what was in use, and what was
/// given.
pub open spec fn gone_back(
    states: Seq<Steps>,
    shown: Seq<Config>,
    given: Seq<Option<Config>>,
) -> bool {
    &&& states.len() == given.len() + 1
    &&& shown.len() == given.len() + 1
    &&& forall|k: int|
        #![trigger given[k]]
        0 <= k < given.len() ==> states[k].undoes(states[k + 1], shown[k], given[k]) && shown[k
            + 1] == match given[k] {
            Some(c) => c,
            None => shown[k],
        }
}

spec fn smaller(a: int, b: int) -> int {
    if a < b {
        a
    } else {
        b
    }
}

#[verifier::opaque]
spec fn like(a: Config, b: Config) -> bool {
    a.alike(b)
}

/// A look that is another than the current one becomes a step.
proof fn lemma_step(old: Steps, new: Steps, current: Config, c: Config)
    requires
        old.commits(new, c),
        like(old.current, current),
        !c.equal(current),
    ensures
        new.past == kept(old.past.push(old.current)),
        like(new.current, c),
{
    reveal(like);
    lemma_alike_compares(old.current, current, c);
}

/// Whether a history holds the looks up to `at`, from `from` on.
spec fn holds_looks(steps: Steps, looks: Seq<Config>, from: int, at: int) -> bool {
    &&& 0 <= from <= at < looks.len()
    &&& steps.past.len() == at - from
    &&& like(steps.current, looks[at])
    &&& forall|j: int| 0 <= j < steps.past.len() ==> like(#[trigger] steps.past[j], looks[from + j])
}

proof fn lemma_committed(looks: Seq<Config>, states: Seq<Steps>, i: int)
    requires
        committed(looks, states),
        0 <= i < looks.len(),
        forall|i: int| 1 <= i < looks.len() ==> #[trigger] turns(looks, i),
    ensures
        holds_looks(states[i], looks, i - smaller(i, STEPS as int), i),
    decreases i,
{
    if i > 0 {
        lemma_committed(looks, states, i - 1);
        let old = states[i - 1];
        let new = states[i];
        assert(commits_at(looks, states, i) && turns(looks, i));
        lemma_step(old, new, looks[i - 1], looks[i]);
        let from = i - smaller(i, STEPS as int);
        let before = i - 1 - smaller(i - 1, STEPS as int);
        let all = old.past.push(old.current);
        assert forall|j: int| 0 <= j < all.len() implies like(
            #[trigger] all[j],
            looks[before + j],
        ) by {
            if j < old.past.len() {
                assert(all[j] == old.past[j]);
            }
        }
        assert forall|j: int| 0 <= j < new.past.len() implies like(
            #[trigger] new.past[j],
            looks[from + j],
        ) by {
            if all.len() > STEPS {
                assert(new.past[j] == all[j + 1]);
            } else {
                assert(new.past[j] == all[j]);
            }
        }
    } else {
        reveal(like);
    }
}

/// Going back from the current look gives the one before, if there is one.
proof fn lemma_back(old: Steps, new: Steps, shown: Config, given: Option<Config>, look: Config)
    requires
        old.undoes(new, shown, given),
        comparable(look),
        like(old.current, look),
        like(shown, look),
    ensures
        old.past.len() == 0 ==> given is None && new == old,
        old.past.len() > 0 ==> {
            &&& given matches Some(c) && like(c, old.past.last())
            &&& new.past == old.past.drop_last()
            &&& new.current == old.past.last()
        },
{
    reveal(like);
    lemma_alike_compares(shown, look, old.current);
    lemma_alike_compares(old.current, look, look);
}

proof fn lemma_like_follows(a: Config, b: Config, c: Config)
    requires
        like(a, b),
        like(b, c),
    ensures
        like(a, c),
{
    reveal(like);
}

proof fn lemma_gone_back(
    looks: Seq<Config>,
    states: Seq<Steps>,
    shown: Seq<Config>,
    given: Seq<Option<Config>>,
    k: int,
)
    requires
        looks.len() > 0,
        forall|i: int| 0 <= i < looks.len() ==> comparable(#[trigger] looks[i]),
        gone_back(states, shown, given),
        like(shown[0], looks.last()),
        ({
            let n = looks.len() - 1;
            holds_looks(states[0], looks, n - smaller(n, STEPS as int), n)
        }),
        0 <= k <= given.len(),
    ensures
        ({
            let n = looks.len() - 1;
            let most = smaller(n, STEPS as int);
            let d = smaller(k, most);
            &&& holds_looks(states[k], looks, n - most, n - d)
            &&& like(shown[k], looks[n - d])
            &&& k > 0 ==> if k <= most {
                given[k - 1] matches Some(c) && like(c, looks[n - k])
            } else {
                given[k - 1] is None
            }
        }),
    decreases k,
{
    if k > 0 {
        lemma_gone_back(looks, states, shown, given, k - 1);
        let n = looks.len() - 1;
        let most = smaller(n, STEPS as int);
        let at = n - smaller(k - 1, most);
        let old = states[k - 1];
        let new = states[k];
        assert(given[k - 1] == given[k - 1]);
        assert(old.undoes(new, shown[k - 1], given[k - 1]));
        lemma_back(old, new, shown[k - 1], given[k - 1], looks[at]);
        if k <= most {
            let previous = old.past.len() - 1;
            assert(like(old.past[previous], looks[at - 1]));
            lemma_like_follows(given[k - 1]->0, old.past[previous], looks[at - 1]);
        }
    }
}

/// After a run of looks, each another than the one before, going back over and over gives them in
/// turn from the last but one, as many as were made steps and are kept, and nothing after that.
/// The looks hold numbers that compare equal to themselves.
pub proof fn going_back_gives_the_looks_in_turn(
    looks: Seq<Config>,
    made: Seq<Steps>,
    states: Seq<Steps>,
    shown: Seq<Config>,
    given: Seq<Option<Config>>,
    k: int,
)
    requires
        committed(looks, made),
        forall|i: int| 0 <= i < looks.len() ==> comparable(#[trigger] looks[i]),
        forall|i: int| 1 <= i < looks.len() ==> #[trigger] turns(looks, i),
        gone_back(states, shown, given),
        states[0] == made.last(),
        shown[0].alike(looks.last()),
        0 <= k < given.len(),
    ensures
        ({
            let n = looks.len() - 1;
            if k < n && k < STEPS {
                given[k] matches Some(c) && c.alike(looks[n - 1 - k])
            } else {
                given[k] is None
            }
        }),
{
    reveal(like);
    lemma_committed(looks, made, looks.len() - 1);
    lemma_gone_back(looks, states, shown, given, k + 1);
}

} // verus!
