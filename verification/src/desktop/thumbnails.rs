//! Gallery thumbnails made from the image being edited rather than from a stock picture, so each
//! entry shows what it would do to this image. Presets get a small CRT render; LUTs get only
//! their color mapping, which is all a LUT changes and costs no GPU time.
use crate::crt::config::Config;
use crate::crt::picture::{flatten_alpha, Picture};
use crate::desktop::worker::{Key, Look, PreviewJob, ThumbnailKey};
use crate::number::Real32;
use crate::text::owned;
use std::sync::Arc;
use vstd::arithmetic::div_mod::*;
use vstd::arithmetic::power2::*;
use vstd::prelude::*;

verus! {

/// Longest side of a preset thumbnail's render, in pixels.
pub const PRESET_SIDE: u32 = 192;

/// Longest side of the image a LUT thumbnail maps.
pub const LUT_SIDE: u32 = 128;

#[derive(Debug)]
pub enum State {
    Pending,
    Ready(Picture),
    /// Not retried until the source changes; the entry simply shows no picture.
    Failed,
}

/// One entry's thumbnail.
#[derive(Debug)]
pub struct Thumbnail {
    pub key: ThumbnailKey,
    /// What a preset's was rendered with, so a preset saved again under the same name is rendered
    /// again.
    pub config: Option<Config>,
    pub state: State,
}

pub struct Thumbnails {
    source: Option<u64>,
    small: Option<Arc<Picture>>,
    generation: u64,
    entries: Vec<Thumbnail>,
}

/// What is kept of thumbnails.
pub struct Shelf {
    /// Which source these were made from. Every load, frame seek or test card is another.
    pub source: Option<u64>,
    /// That source at LUT thumbnail size, made once per source.
    pub small: Option<Picture>,
    /// Counts the sources.
    pub generation: nat,
    /// Present once asked for.
    pub entries: Seq<Thumbnail>,
}

impl View for Thumbnails {
    type V = Shelf;

    closed spec fn view(&self) -> Shelf {
        Shelf {
            source: self.source,
            small: match self.small {
                Some(small) => Some(*small),
                None => None,
            },
            generation: self.generation as nat,
            entries: self.entries@,
        }
    }
}

/// Where an entry's thumbnail is among the first `n`, or `n`.
pub open spec fn place(entries: Seq<Thumbnail>, key: Key, n: nat) -> nat
    decreases n,
{
    if n == 0 {
        0
    } else {
        let before = place(entries, key, (n - 1) as nat);
        if before < n - 1 {
            before
        } else if entries[n - 1].key@ == key {
            (n - 1) as nat
        } else {
            n
        }
    }
}

impl Shelf {
    /// The thumbnails of a source: none, where it is another than before.
    pub open spec fn of_source(self, source: u64) -> Shelf {
        if self.source == Some(source) {
            self
        } else {
            Shelf {
                source: Some(source),
                small: None,
                generation: self.generation + 1,
                entries: Seq::empty(),
            }
        }
    }

    pub open spec fn at(self, key: Key) -> nat {
        place(self.entries, key, self.entries.len())
    }

    pub open spec fn has(self, key: Key) -> bool {
        self.at(key) < self.entries.len()
    }

    /// The entry's thumbnail, where it has been asked for.
    pub open spec fn entry(self, key: Key) -> Thumbnail {
        self.entries[self.at(key) as int]
    }

    /// Whether a shelf is this one with an entry's thumbnail asked for.
    pub open spec fn asks(self, new: Shelf, key: Key, config: Option<Config>, state: State) -> bool {
        let at = self.at(key) as int;
        &&& new.source == self.source
        &&& new.generation == self.generation
        &&& new.entries.len() == if self.has(key) {
            self.entries.len()
        } else {
            self.entries.len() + 1
        }
        &&& forall|i: int|
            0 <= i < self.entries.len() && i != at ==> #[trigger] new.entries[i] == self.entries[i]
        &&& new.entries[at].key@ == key
        &&& new.entries[at].state == state
        &&& match (new.entries[at].config, config) {
            (None, None) => true,
            (Some(kept), Some(config)) => kept.alike(config),
            _ => false,
        }
    }

    /// Whether a preset's thumbnail need not be asked for: it has been, with these settings.
    pub open spec fn preset_asked(self, key: Key, config: Config) -> bool {
        self.has(key) && (self.entry(key).config matches Some(made) && made.equal(config))
    }

    pub open spec fn any_pending(self) -> bool {
        exists|i: int| 0 <= i < self.entries.len() && (#[trigger] self.entries[i]).state is Pending
    }
}

impl Default for Thumbnails {
    fn default() -> (r: Self)
        ensures
            r@ == (Shelf {
                source: None,
                small: None,
                generation: 0,
                entries: Seq::empty(),
            }),
    {
        Thumbnails { source: None, small: None, generation: 0, entries: Vec::new() }
    }
}

/// What asking for a thumbnail gives.
#[derive(Debug)]
pub enum Answer {
    /// It has been asked for: see what became of it.
    Asked,
    /// A job that makes it.
    Make(PreviewJob),
    /// It cannot be made.
    Impossible,
}

impl Thumbnails {
    pub fn generation(&self) -> (r: u64)
        ensures
            r == self@.generation,
    {
        self.generation
    }

    fn find(&self, key: &ThumbnailKey) -> (r: usize)
        ensures
            r == self@.at(key@),
            r <= self@.entries.len(),
    {
        let mut at: usize = 0;
        let mut i: usize = 0;
        while i < self.entries.len()
            invariant
                i <= self.entries@.len(),
                at <= i,
                at == place(self.entries@, key@, i as nat),
            decreases self.entries@.len() - i,
        {
            if at == i && !self.entries[i].key.same(key) {
                at = i + 1;
            }
            i = i + 1;
        }
        at
    }

    /// An entry's picture, once it is there.
    pub fn picture(&self, key: &ThumbnailKey) -> (r: Option<&Picture>)
        ensures
            match r {
                Some(picture) => self@.has(key@) && self@.entry(key@).state == State::Ready(
                    *picture,
                ),
                None => self@.has(key@) ==> !(self@.entry(key@).state is Ready),
            },
    {
        let at: usize = self.find(key);
        if at < self.entries.len() {
            match &self.entries[at].state {
                State::Ready(picture) => Some(picture),
                _ => None,
            }
        } else {
            None
        }
    }

    fn put(&mut self, at: usize, entry: Thumbnail)
        requires
            at <= old(self)@.entries.len(),
        ensures
            final(self)@ == (Shelf {
                entries: if at < old(self)@.entries.len() {
                    old(self)@.entries.update(at as int, entry)
                } else {
                    old(self)@.entries.push(entry)
                },
                ..old(self)@
            }),
    {
        if at < self.entries.len() {
            self.entries.set(at, entry);
        } else {
            self.entries.push(entry);
        }
    }

    /// Turns to a source: the thumbnails of another one are forgotten.
    pub fn turn_to(&mut self, source: u64)
        requires
            old(self)@.generation < u64::MAX,
        ensures
            final(self)@ == old(self)@.of_source(source),
    {
        let same: bool = match self.source {
            Some(current) => current == source,
            None => false,
        };
        if !same {
            self.source = Some(source);
            self.small = None;
            self.generation = self.generation + 1;
            self.entries = Vec::new();
        }
    }

    /// Asks for a preset's thumbnail of `source`, whose image is `input`, if it is missing or out
    /// of date.
    pub fn preset(&mut self, source: u64, input: &Arc<Picture>, name: &str, config: &Config) -> (r:
        Answer)
        requires
            old(self)@.generation < u64::MAX,
        ensures
            ({
                let shelf = old(self)@.of_source(source);
                let key = Key::Preset(name@);
                let size = (input.width, input.height);
                if shelf.preset_asked(key, *config) {
                    r is Asked && final(self)@ == shelf
                } else if config.fault_for(size) is Some {
                    &&& r is Impossible
                    &&& shelf.asks(final(self)@, key, Some(*config), State::Failed)
                    &&& final(self)@.small == shelf.small
                } else {
                    &&& r matches Answer::Make(job) && is_preset_job(
                        job,
                        shelf.generation,
                        name@,
                        **input,
                        *config,
                    )
                    &&& shelf.asks(final(self)@, key, Some(*config), State::Pending)
                    &&& final(self)@.small == shelf.small
                }
            }),
    {
        self.turn_to(source);
        let ghost shelf = self@;
        let key: ThumbnailKey = ThumbnailKey::Preset(owned(name));
        let at: usize = self.find(&key);
        if at < self.entries.len() {
            match &self.entries[at].config {
                Some(made) => {
                    if made.same(config) {
                        return Answer::Asked;
                    }
                },
                None => {},
            }
        }
        let small = config.with_max_output_side(input.dimensions(), Some(PRESET_SIDE));
        match small {
            Ok(small) => {
                self.put(
                    at,
                    Thumbnail { key: key.copy(), config: Some(config.copy()), state: State::Pending },
                );
                Answer::Make(
                    PreviewJob::Thumbnail {
                        generation: self.generation,
                        key,
                        input: input.clone(),
                        look: Look::Crt(small),
                    },
                )
            },
            Err(_) => {
                self.put(at, Thumbnail { key, config: Some(config.copy()), state: State::Failed });
                Answer::Impossible
            },
        }
    }

    /// Asks for an included LUT's thumbnail of `source`, whose image is `input`, if it is missing.
    pub fn lut(&mut self, source: u64, input: &Picture, index: usize) -> (r: Answer)
        requires
            old(self)@.generation < u64::MAX,
            input.wf(),
            0 < input.width <= 16384,
            0 < input.height <= 16384,
        ensures
            ({
                let shelf = old(self)@.of_source(source);
                let key = Key::Lut(index as nat);
                if shelf.has(key) {
                    r is Asked && final(self)@ == shelf
                } else {
                    &&& r matches Answer::Make(PreviewJob::Thumbnail {
                        generation,
                        key: asked,
                        input: sent,
                        look,
                    }) && generation == shelf.generation && asked@ == key && Some(*sent)
                        == final(self)@.small && look == Look::Lut(index)
                    &&& shelf.asks(final(self)@, key, None, State::Pending)
                    &&& final(self)@.small matches Some(small) && match shelf.small {
                        Some(kept) => small == kept,
                        None => is_thumbnail(small, *input, LUT_SIDE),
                    }
                }
            }),
    {
        self.turn_to(source);
        let key: ThumbnailKey = ThumbnailKey::Lut(index);
        let at: usize = self.find(&key);
        if at < self.entries.len() {
            return Answer::Asked;
        }
        let sent: Arc<Picture> = match &self.small {
            Some(small) => small.clone(),
            None => {
                let small: Arc<Picture> = Arc::new(opaque_thumbnail(input, LUT_SIDE));
                self.small = Some(small.clone());
                small
            },
        };
        self.put(
            at,
            Thumbnail { key: ThumbnailKey::Lut(index), config: None, state: State::Pending },
        );
        Answer::Make(
            PreviewJob::Thumbnail {
                generation: self.generation,
                key,
                input: sent,
                look: Look::Lut(index),
            },
        )
    }

    /// A thumbnail came back, or why not. One of a source since replaced is not shown.
    pub fn ready(&mut self, generation: u64, key: &ThumbnailKey, result: Result<Picture, String>)
        ensures
            ({
                let shelf = old(self)@;
                let at = shelf.at(key@) as int;
                let state = match result {
                    Ok(picture) => State::Ready(picture),
                    Err(_) => State::Failed,
                };
                final(self)@ == if generation != shelf.generation || !shelf.has(key@) {
                    shelf
                } else {
                    Shelf {
                        entries: shelf.entries.update(
                            at,
                            Thumbnail { state, ..shelf.entries[at] },
                        ),
                        ..shelf
                    }
                }
            }),
    {
        if generation != self.generation {
            return;
        }
        let at: usize = self.find(key);
        if at < self.entries.len() {
            let state: State = match result {
                Ok(picture) => State::Ready(picture),
                Err(_) => State::Failed,
            };
            let mut entry: Thumbnail = self.entries.remove(at);
            entry.state = state;
            self.entries.insert(at, entry);
            assert(self.entries@ =~= old(self)@.entries.update(
                at as int,
                Thumbnail { state, ..old(self)@.entries[at as int] },
            ));
        }
    }

    /// Whether a gallery on screen is still waiting for thumbnails, so that a screenshot can wait
    /// for them rather than capture placeholders in some places and pictures in others.
    pub fn pending(&self, gallery_shown: bool) -> (r: bool)
        ensures
            r == (gallery_shown && self@.any_pending()),
    {
        if !gallery_shown {
            return false;
        }
        let mut i: usize = 0;
        while i < self.entries.len()
            invariant
                gallery_shown,
                i <= self.entries@.len(),
                forall|k: int| 0 <= k < i ==> !((#[trigger] self.entries@[k]).state is Pending),
            decreases self.entries@.len() - i,
        {
            match &self.entries[i].state {
                State::Pending => {
                    assert(self@.entries[i as int].state is Pending);
                    return true;
                },
                _ => {},
            }
            i = i + 1;
        }
        false
    }
}

/// Whether a job makes a preset's thumbnail: the settings at thumbnail size, of the source.
pub open spec fn is_preset_job(
    job: PreviewJob,
    generation: nat,
    name: Seq<char>,
    input: Picture,
    config: Config,
) -> bool {
    let size = (input.width, input.height);
    job matches PreviewJob::Thumbnail { generation: asked, key, input: sent, look } && {
        &&& asked == generation
        &&& key matches ThumbnailKey::Preset(n) && n@ == name
        &&& *sent == input
        &&& look matches Look::Crt(small) && {
            &&& small.alike_but_sizes(config)
            &&& small.signal@ == config.signal@
            &&& small.output@ == Config::size_text(
                Config::scaled_size(config.output_of(size)->Ok_0, Some(PRESET_SIDE)),
            )
        }
    }
}

// -------------------------------------------------------------------------------------------
// The source at thumbnail size
// -------------------------------------------------------------------------------------------

/// How far an image shrinks for its longer side to be at most `side`.
pub open spec fn shrink(size: (u32, u32), side: u32) -> Real32 {
    let longer = if size.0 > size.1 {
        size.0
    } else {
        size.1
    };
    let ratio = Real32::of(side as nat).over(Real32::of(longer as nat));
    if Real32::of(1).below(ratio) {
        Real32::of(1)
    } else {
        ratio
    }
}

pub open spec fn shrunk(length: u32, scale: Real32) -> u32 {
    let n = Real32::of(length as nat).times(scale).rounded(u32::MAX as nat);
    if n == 0 {
        1
    } else {
        n as u32
    }
}

/// An image's size at thumbnail size.
pub open spec fn thumbnail_size(size: (u32, u32), side: u32) -> (u32, u32) {
    (shrunk(size.0, shrink(size, side)), shrunk(size.1, shrink(size, side)))
}

/// A side of an image stays within its length at thumbnail size, and shrinks no further than
/// 4096 to one.
proof fn lemma_shrunk(length: u32, size: (u32, u32), side: u32)
    requires
        0 < size.0 <= 16384,
        0 < size.1 <= 16384,
        length == size.0 || length == size.1,
        16 <= side <= 16384,
    ensures
        0 < shrunk(length, shrink(size, side)) <= length,
        length <= 4096 * shrunk(length, shrink(size, side)),
{
    reveal(Real32::of);
    reveal(Real32::over);
    reveal(Real32::times);
    reveal(Real32::rounded);
    reveal(Real32::below);
    let f = crate::float::Format::Single;
    let longer = if size.0 > size.1 {
        size.0 as nat
    } else {
        size.1 as nat
    };
    let n = length as nat;
    crate::float::small_integers_are_exact(f, 1);
    crate::float::small_integers_are_exact(f, side as nat);
    crate::float::small_integers_are_exact(f, longer);
    crate::float::small_integers_are_exact(f, n);
    crate::float::small_integers_are_exact(f, 4);
    let q = f.quotient(f.of(side as nat), f.of(longer));
    let (top, d) = crate::crt::canvas::lemma_exact_quotient(f, side as nat, longer);
    let zero = crate::float::unit_pow(0);
    let step = crate::float::unit_pow(-10);
    crate::float::lemma_unit_pow_adds(-10, 10);
    lemma2_to64();
    assert(zero == step * 1024);
    // The quotient is at least 2^-10.
    let m = side as nat;
    assert(d * m * zero == (d * step) * (m * 1024)) by (nonlinear_arith)
        requires
            zero == step * 1024,
    ;
    assert((d * step) * (m * 1024) >= (d * step) * longer) by (nonlinear_arith)
        requires
            m * 1024 >= longer,
            d * step >= 0,
    ;
    assert(top >= d * step) by (nonlinear_arith)
        requires
            top * longer >= (d * step) * longer,
            longer > 0,
    ;
    assert(crate::float::scaled(1, -10) == step);
    crate::float::dyadics_are_exact(f, 1, -10);
    let least = f.nearest(step, 1);
    crate::float::lemma_nearest_cancels(f, step, d);
    crate::float::rounding_keeps_order(f, (d * step) as nat, top, d);
    lemma_small_mod(q, f.sign());
    let scale = shrink(size, side).at();
    crate::float::one_is_exact(f);
    assert(least <= f.of(1)) by {
        crate::float::lemma_unit_pow_grows(-10, 0);
        assert(crate::float::scaled(1, 0) == zero);
        crate::float::rounding_keeps_order(f, step, zero, 1);
    }
    assert(f.holds(scale) && f.finite(scale) && !f.negative(scale) && least <= f.magnitude(scale)
        <= f.of(1));
    crate::crt::canvas::lemma_scaled_order(f, n, n, scale);
    if n > 4096 {
        crate::float::worth_follows_magnitude(f, least, scale);
        let v = crate::crt::canvas::lemma_exact_product(f, n, scale);
        assert(v >= crate::float::scaled(4, 0)) by (nonlinear_arith)
            requires
                v == n * f.value(scale),
                f.value(scale) >= step,
                n >= 4096,
                zero == step * 1024,
                crate::float::scaled(4, 0) == 4 * zero,
                step > 0,
        ;
        crate::float::rounding_keeps_order(f, crate::float::scaled(4, 0), v, 1);
        let product = f.nearest(v, 1);
        lemma_small_mod(product, f.sign());
        crate::float::product_is_no_more(f, f.of(n), scale, f.of(1));
        crate::float::integers_keep_order(f, f.of(4), product, u32::MAX as nat);
        crate::float::integers_round_to_themselves(f, 4, u32::MAX as nat);
    }
}

/// What `image::imageops::thumbnail` makes of a picture's bytes.
pub uninterp spec fn reduced(
    pixels: Seq<u8>,
    width: u32,
    height: u32,
    new_width: u32,
    new_height: u32,
) -> Seq<u8>;

/// Resizes with `image::imageops::thumbnail`. What comes back has the new size; its bytes are
/// named. A block of more than 4096 by 4096 pixels would overflow the sums it makes.
#[verifier::external_body]
fn thumbnail(image: &Picture, width: u32, height: u32) -> (r: Picture)
    requires
        image.wf(),
        0 < image.width <= 16384 && 0 < image.height <= 16384,
        0 < width <= 16384 && 0 < height <= 16384,
        image.width <= 4096 * width && image.height <= 4096 * height,
    ensures
        r.wf(),
        r.width == width && r.height == height,
        r.pixels@ == reduced(image.pixels@, image.width, image.height, width, height),
{
    let source: image::RgbaImage = image::ImageBuffer::from_raw(
        image.width,
        image.height,
        image.pixels.clone(),
    ).unwrap();
    let small = image::imageops::thumbnail(&source, width, height);
    Picture { width, height, pixels: small.into_raw() }
}

/// Whether a picture is an image at thumbnail size, laid over black.
pub open spec fn is_thumbnail(small: Picture, input: Picture, side: u32) -> bool {
    let size = thumbnail_size((input.width, input.height), side);
    let pixels = reduced(input.pixels@, input.width, input.height, size.0, size.1);
    &&& small.wf()
    &&& (small.width, small.height) == size
    &&& forall|i: int|
        0 <= i < small.pixels@.len() ==> #[trigger] small.pixels@[i]
            == crate::crt::picture::flattened(pixels, seq![0u8, 0u8, 0u8], i)
}

fn shrink_side(length: u32, scale: Real32) -> (r: u32)
    ensures
        r == shrunk(length, scale),
        r > 0,
{
    let n: u32 = Real32::from_integer(length as u64).mul(scale).round(u32::MAX);
    if n == 0 {
        1
    } else {
        n
    }
}

/// The input at thumbnail size, with transparency flattened onto black as the source view does.
/// A side of less than 16 would add up more pixels into one than the reduction can.
pub fn opaque_thumbnail(input: &Picture, side: u32) -> (r: Picture)
    requires
        input.wf(),
        0 < input.width <= 16384,
        0 < input.height <= 16384,
        16 <= side <= 16384,
    ensures
        is_thumbnail(r, *input, side),
{
    let longer: u32 = if input.width > input.height {
        input.width
    } else {
        input.height
    };
    let unit: Real32 = Real32::from_integer(1);
    let ratio: Real32 = Real32::from_integer(side as u64).div(Real32::from_integer(longer as u64));
    let scale: Real32 = if unit.less(ratio) {
        unit
    } else {
        ratio
    };
    let width: u32 = shrink_side(input.width, scale);
    let height: u32 = shrink_side(input.height, scale);
    proof {
        lemma_shrunk(input.width, (input.width, input.height), side);
        lemma_shrunk(input.height, (input.width, input.height), side);
    }
    let mut small: Picture = thumbnail(input, width, height);
    let black: [u8; 3] = [0, 0, 0];
    assert(black@ =~= seq![0u8, 0u8, 0u8]);
    flatten_alpha(&mut small, black);
    small
}

// -------------------------------------------------------------------------------------------
// Laws
// -------------------------------------------------------------------------------------------

proof fn lemma_place(entries: Seq<Thumbnail>, key: Key, n: nat)
    requires
        n <= entries.len(),
    ensures
        place(entries, key, n) <= n,
        place(entries, key, n) < n ==> entries[place(entries, key, n) as int].key@ == key,
        forall|i: int| 0 <= i < place(entries, key, n) ==> (#[trigger] entries[i]).key@ != key,
    decreases n,
{
    if n > 0 {
        lemma_place(entries, key, (n - 1) as nat);
    }
}

/// A thumbnail that was asked for is not asked for again: asking as every frame does sends
/// nothing new, until the source or the preset's settings change.
pub proof fn thumbnails_are_asked_for_once(
    shelf: Shelf,
    new: Shelf,
    key: Key,
    config: Option<Config>,
    state: State,
    source: u64,
)
    requires
        shelf.source == Some(source),
        shelf.asks(new, key, config, state),
    ensures
        new.of_source(source) == new,
        new.has(key),
        new.entry(key).state == state,
        config matches Some(made) ==> (new.entry(key).config matches Some(kept) && kept.alike(made)),
{
    let at = shelf.at(key);
    lemma_place(shelf.entries, key, shelf.entries.len());
    lemma_place(new.entries, key, new.entries.len());
    let found = new.at(key);
    assert(new.entries[at as int].key@ == key);
    if found < at {
        assert(new.entries[found as int] == shelf.entries[found as int]);
    }
    assert(found == at);
}

/// A late thumbnail of a source that has been replaced is never shown.
pub proof fn late_thumbnails_are_not_shown(shelf: Shelf, source: u64)
    requires
        shelf.source != Some(source),
    ensures
        shelf.of_source(source).generation != shelf.generation,
        shelf.of_source(source).entries.len() == 0,
{
}

/// A thumbnail keeps the image's shape: its longer side is the one asked for and the other is in
/// proportion, to the nearest pixel and at least one. An image that is small enough keeps its size.
pub proof fn thumbnails_keep_the_shape(size: (u32, u32), side: u32)
    requires
        0 < size.0 <= 16384,
        0 < size.1 <= 16384,
        0 < side <= 16384,
    ensures
        ({
            let longer = if size.0 > size.1 {
                size.0
            } else {
                size.1
            };
            let r = thumbnail_size(size, side);
            &&& longer <= side ==> r == size
            &&& side < longer ==> {
                &&& r.0 == 1 || crate::margin::within(
                    512 * (r.0 * longer),
                    512 * (size.0 * side),
                    258 * longer,
                )
                &&& r.1 == 1 || crate::margin::within(
                    512 * (r.1 * longer),
                    512 * (size.1 * side),
                    258 * longer,
                )
            }
        }),
{
    lemma_in_proportion(size.0, size, side);
    lemma_in_proportion(size.1, size, side);
}

proof fn lemma_in_proportion(length: u32, size: (u32, u32), side: u32)
    requires
        0 < size.0 <= 16384,
        0 < size.1 <= 16384,
        0 < side <= 16384,
        length == size.0 || length == size.1,
    ensures
        ({
            let longer = if size.0 > size.1 {
                size.0
            } else {
                size.1
            };
            let r = shrunk(length, shrink(size, side));
            &&& longer <= side ==> r == length
            &&& side < longer ==> r == 1 || crate::margin::within(
                512 * (r * longer),
                512 * (length * side),
                258 * longer,
            )
        }),
{
    let longer = if size.0 > size.1 {
        size.0
    } else {
        size.1
    };
    let q = crate::crt::config::lemma_near_ratio(side, longer);
    crate::margin::lemma_units();
    reveal(Real32::finite);
    reveal(Real32::of);
    reveal(Real32::over);
    reveal(Real32::times);
    reveal(Real32::rounded);
    reveal(Real32::below);
    let f = crate::float::Format::Single;
    crate::float::small_integers_are_exact(f, 1);
    crate::float::small_integers_are_exact(f, length as nat);
    crate::float::small_integers_are_exact(f, side as nat);
    crate::float::small_integers_are_exact(f, longer as nat);
    let u = crate::margin::unit();
    let (n, s, l) = (length as int, side as int, longer as int);
    let (w, v) = (crate::margin::worth(q), Real32::of(length as nat));
    crate::float::order_follows_value(f, f.of(1), q.at());
    if longer <= side {
        assert(l * u <= s * u) by (nonlinear_arith)
            requires
                l <= s,
                u > 0,
        ;
        assert(l * u > 0) by (nonlinear_arith)
            requires
                l > 0,
                u > 0,
        ;
        crate::margin::shares_are_at_least_one(f, f.of(side as nat), f.of(longer as nat));
        crate::float::worth_follows_magnitude(f, f.of(1), q.at());
        let scale = shrink(size, side);
        assert(scale.finite() && crate::margin::worth(scale) == u);
        crate::margin::one_and_zero_multiply(v, scale);
        let p = v.times(scale);
        assert((2 * (n * u) + u) / (2 * u) == n && n * u > 0) by (nonlinear_arith)
            requires
                n > 0,
                u > 0,
        ;
    } else {
        assert(s * u <= l * u && l * u > 0) by (nonlinear_arith)
            requires
                0 < s <= l,
                u > 0,
        ;
        crate::float::shares_are_at_most_one(f, f.of(side as nat), f.of(longer as nat));
        crate::float::worth_follows_magnitude(f, q.at(), f.of(1));
        assert(shrink(size, side) == q);
        vstd::arithmetic::power2::lemma2_to64();
        crate::float::lemma_unit_pow_adds(0, 15);
        crate::float::lemma_unit_pow_adds(-10, 10);
        let (big, e) = (crate::float::unit_pow(15) as int, crate::float::unit_pow(-10) as int);
        assert(u * 0x8000 == 0x8000 * u && e * 0x400 == 0x400 * e) by (nonlinear_arith);
        let nw = n * w;
        assert((n * u) * w == nw * u && 0 <= nw <= 0x4000 * u) by (nonlinear_arith)
            requires
                nw == n * w,
                0 < n <= 0x4000,
                0 <= w <= u,
        ;
        assert(-(big * u) < nw * u < big * u) by (nonlinear_arith)
            requires
                0 <= nw <= 0x4000 * u,
                big == 0x8000 * u,
                u > 0,
        ;
        crate::margin::products_are_close(f, f.of(length as nat), q.at(), 15);
        let p = f.product(f.of(length as nat), q.at());
        let x = f.value(p);
        assert(crate::margin::within(x, nw, e)) by (nonlinear_arith)
            requires
                x * u - nw * u <= e * u,
                nw * u - x * u <= e * u,
                u > 0,
        ;
        crate::margin::rounds_to_nearest(f, p, u32::MAX as nat, 0x8000);
        let r = f.rounded(p, u32::MAX as nat) as int;
        let (wl, su) = (w * l, s * u);
        assert(crate::margin::within(wl * 0x100_0000, su * 0x100_0000, su)) by (nonlinear_arith)
            requires
                crate::margin::within(
                    (w * (l * u)) * 0x100_0000,
                    (su * u) * 0x100_0000,
                    1 * (su * u),
                ),
                wl == w * l,
                u > 0,
        ;
        let (nwl, nsu, lu) = (n * wl, n * su, l * u);
        assert(crate::margin::within(1024 * nwl, 1024 * nsu, lu)) by (nonlinear_arith)
            requires
                crate::margin::within(wl * 0x100_0000, su * 0x100_0000, su),
                nwl == n * wl,
                nsu == n * su,
                lu == l * u,
                su == s * u,
                0 < n <= 0x4000,
                0 < s <= l,
                u > 0,
        ;
        let (ru, rl) = (r * u, r * l);
        assert(crate::margin::within(1024 * (rl * u), 1024 * nwl, 513 * lu)) by (nonlinear_arith)
            requires
                crate::margin::within(2 * ru, 2 * x, u),
                crate::margin::within(x, nw, e),
                ru == r * u,
                rl == r * l,
                nwl == n * wl,
                wl == w * l,
                nw == n * w,
                lu == l * u,
                u == 0x400 * e,
                l > 0,
        ;
        let ns = n * s;
        assert(nsu == ns * u) by (nonlinear_arith)
            requires
                nsu == n * su,
                su == s * u,
                ns == n * s,
        ;
        assert(crate::margin::within(512 * rl, 512 * ns, 258 * l)) by (nonlinear_arith)
            requires
                crate::margin::within(1024 * (rl * u), 1024 * nwl, 513 * lu),
                crate::margin::within(1024 * nwl, 1024 * nsu, lu),
                nsu == ns * u,
                lu == l * u,
                u > 0,
                l > 0,
        ;
    }
}

} // verus!
