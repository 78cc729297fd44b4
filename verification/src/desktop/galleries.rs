//! The galleries' windows: what a search finds, and what an entry says.
use crate::crt::config::Config;
use crate::crt::nes_luts::names;
use crate::desktop::gallery::Entry;
use crate::desktop::model::differences;
use crate::text::{chars_of, decimal_text, join3, owned, text_of, trim};
use vstd::prelude::*;
use vstd::slice::slice_subrange;

verus! {

/// Whether a text holds another.
pub open spec fn holds(text: Seq<char>, part: Seq<char>) -> bool {
    exists|i: int|
        0 <= i <= text.len() - part.len() && #[trigger] text.subrange(i, i + part.len()) == part
}

fn contains(text: &[char], part: &[char]) -> (r: bool)
    ensures
        r == holds(text@, part@),
{
    if part.len() > text.len() {
        return false;
    }
    let mut i: usize = 0;
    while i <= text.len() - part.len()
        invariant
            part@.len() <= text@.len(),
            i <= text@.len() - part@.len() + 1,
            forall|k: int|
                0 <= k < i ==> #[trigger] text@.subrange(k, k + part@.len()) != part@,
        decreases text@.len() - i,
    {
        let window: &[char] = slice_subrange(text, i, i + part.len());
        if crate::text::same_chars(window, part) {
            assert(text@.subrange(i as int, i + part@.len()) == part@);
            return true;
        }
        if i == text.len() - part.len() {
            assert forall|k: int| 0 <= k <= text@.len() - part@.len() implies #[trigger] text@.subrange(
                k,
                k + part@.len(),
            ) != part@ by {}
            return false;
        }
        i = i + 1;
    }
    false
}

/// What a search looks for: the text without the spaces around it, in lower case.
pub open spec fn query(search: Seq<char>) -> Seq<char> {
    crate::desktop::gallery::lowered(crate::text::trimmed(search))
}

/// Whether a search finds a name.
pub open spec fn found(name: Seq<char>, search: Seq<char>) -> bool {
    holds(crate::desktop::gallery::lowered(name), query(search))
}

/// The included LUTs among the first `n` that a search finds.
pub open spec fn matches_among(search: Seq<char>, n: nat) -> Seq<usize>
    decreases n,
{
    if n == 0 {
        Seq::empty()
    } else {
        let before = matches_among(search, (n - 1) as nat);
        if found(crate::crt::nes_luts::entries()[n - 1], search) {
            before.push((n - 1) as usize)
        } else {
            before
        }
    }
}

/// The included LUTs that a search finds, in order.
pub fn search_luts(search: &str) -> (r: Vec<usize>)
    ensures
        r@ == matches_among(search@, 38),
{
    let typed: Vec<char> = chars_of(search);
    let trimmed: String = text_of(trim(typed.as_slice()));
    let lower: String = trimmed.as_str().to_lowercase();
    let wanted: Vec<char> = chars_of(lower.as_str());
    let names: Vec<&'static str> = names();
    let mut r: Vec<usize> = Vec::new();
    let mut i: usize = 0;
    while i < 38
        invariant
            i <= 38,
            names@.len() == 38,
            forall|k: int| 0 <= k < 38 ==> (#[trigger] names@[k])@ == crate::crt::nes_luts::entries()[k],
            wanted@ == query(search@),
            r@ == matches_among(search@, i as nat),
        decreases 38 - i,
    {
        let name: String = names[i].to_lowercase();
        let chars: Vec<char> = chars_of(name.as_str());
        assert(names@[i as int]@ == crate::crt::nes_luts::entries()[i as int]);
        if contains(chars.as_slice(), wanted.as_slice()) {
            r.push(i);
        }
        i = i + 1;
    }
    r
}

/// What the LUT gallery says of a search.
pub fn count_text(found: usize) -> (r: String)
    ensures
        r@ == crate::text::decimal(found as nat) + " of 38 included LUTs · available offline"@,
{
    crate::text::join(
        decimal_text(found as u64).as_str(),
        " of 38 included LUTs · available offline",
    )
}

/// What an included LUT's audition is called.
pub fn lut_label(name: &str) -> (r: String)
    ensures
        r@ == "LUT “"@ + name@ + "”"@,
{
    join3("LUT “", name, "”")
}

/// What a preset's audition is called.
pub fn preset_label(name: &str) -> (r: String)
    ensures
        r@ == "preset “"@ + name@ + "”"@,
{
    join3("preset “", name, "”")
}

/// What the gallery says of a preset.
pub fn description_text(entry: &Entry) -> (r: String)
    ensures
        r@ == if entry.description@.len() == 0 {
            "No description"@
        } else {
            entry.description@
        },
{
    let chars: Vec<char> = chars_of(entry.description.as_str());
    if chars.len() == 0 {
        owned("No description")
    } else {
        owned(entry.description.as_str())
    }
}

/// How a preset compares with the settings in use, in a line.
pub open spec fn comparison(entry: Config, current: Config) -> Seq<char> {
    let n = crate::desktop::model::differing(
        current,
        entry,
        crate::crt::settings::table(),
    ).len();
    if entry.equal(current) {
        "Matches your settings"@
    } else {
        "Differs from your settings in "@ + crate::text::decimal(n) + (if n == 1 {
            " setting"@
        } else {
            " settings"@
        })
    }
}

/// How a preset compares with the settings in use, in a line.
pub fn comparison_text(entry: &Config, current: &Config) -> (r: String)
    ensures
        r@ == comparison(*entry, *current),
{
    if entry.same(current) {
        return owned("Matches your settings");
    }
    let count: usize = differences(current, entry).len();
    join3(
        "Differs from your settings in ",
        decimal_text(count as u64).as_str(),
        if count == 1 {
            " setting"
        } else {
            " settings"
        },
    )
}

/// An empty search finds everything.
pub proof fn an_empty_search_finds_all(name: Seq<char>, search: Seq<char>)
    requires
        query(search).len() == 0,
    ensures
        found(name, search),
{
    let text = crate::desktop::gallery::lowered(name);
    assert(text.subrange(0, 0int + query(search).len()) =~= query(search));
}

} // verus!
