//! The tags an export writes and what an import reads back from them.
use crate::crt::config::{Config, ConfigError};
use crate::media::json::Json;
use crate::media::kind::Container;
use crate::media::options::{Options, OptionsError};
use crate::media::plan::{ExportPlan, METADATA_LIMIT};
use crate::media::probe::{Track, TrackKind, Video};
use crate::text::{alike_text, begins_with, chars_of, decimal_text, join, text_between};
use vstd::prelude::*;
use vstd::slice::*;

verus! {

// -------------------------------------------------------------------------------------------
// FFmpeg's metadata format
// -------------------------------------------------------------------------------------------

/// A character as FFmpeg's metadata format needs it written. Carriage returns are left out.
pub open spec fn escaped_char(c: char) -> Seq<char> {
    if c == '\\' || c == '=' || c == ';' || c == '#' || c == '\n' {
        seq!['\\', c]
    } else if c == '\r' {
        Seq::empty()
    } else {
        seq![c]
    }
}

pub open spec fn escaped(s: Seq<char>) -> Seq<char>
    decreases s.len(),
{
    if s.len() == 0 {
        Seq::empty()
    } else {
        escaped_char(s[0]) + escaped(s.skip(1))
    }
}

/// A key or value as FFmpeg's metadata format needs it written.
pub fn escape(text: &str) -> (r: String)
    ensures
        r@ == escaped(text@),
{
    let chars: Vec<char> = chars_of(text);
    let mut r: String = String::new();
    let mut i: usize = 0;
    assert(chars@.skip(0) == chars@);
    assert(r@ + escaped(chars@) == escaped(chars@));
    while i < chars.len()
        invariant
            i <= chars@.len(),
            r@ + escaped(chars@.skip(i as int)) == escaped(chars@),
        decreases chars@.len() - i,
    {
        let c: char = chars[i];
        let ghost before = r@;
        let ghost rest = chars@.skip(i as int);
        proof {
            assert(rest[0] == c);
            assert(rest.skip(1) == chars@.skip(i + 1));
        }
        if c == '\\' || c == '=' || c == ';' || c == '#' || c == '\n' {
            r.push('\\');
            r.push(c);
            assert(r@ == before + escaped_char(c));
        } else if c != '\r' {
            r.push(c);
            assert(r@ == before + escaped_char(c));
        } else {
            assert(r@ == before + escaped_char(c));
        }
        proof {
            assert(before + (escaped_char(c) + escaped(rest.skip(1))) == r@ + escaped(rest.skip(1)));
        }
        i = i + 1;
    }
    assert(chars@.skip(i as int) == Seq::<char>::empty());
    assert(r@ + Seq::<char>::empty() == r@);
    r
}

/// Metadata as FFmpeg reads it back: a backslash keeps the character after it as it is.
pub open spec fn unescaped(s: Seq<char>) -> Seq<char>
    decreases s.len(),
{
    if s.len() == 0 {
        Seq::empty()
    } else if s[0] == '\\' && s.len() > 1 {
        seq![s[1]] + unescaped(s.skip(2))
    } else {
        seq![s[0]] + unescaped(s.skip(1))
    }
}

/// A text without its carriage returns.
pub open spec fn without_returns(s: Seq<char>) -> Seq<char>
    decreases s.len(),
{
    if s.len() == 0 {
        Seq::empty()
    } else if s[0] == '\r' {
        without_returns(s.skip(1))
    } else {
        seq![s[0]] + without_returns(s.skip(1))
    }
}

/// What is written as metadata reads back as it was, but for carriage returns.
pub proof fn escaping_reads_back(s: Seq<char>)
    ensures
        unescaped(escaped(s)) == without_returns(s),
    decreases s.len(),
{
    if s.len() > 0 {
        let c = s[0];
        let rest = escaped(s.skip(1));
        escaping_reads_back(s.skip(1));
        if c == '\r' {
            assert(escaped(s) == rest);
        } else if escaped_char(c).len() == 2 {
            assert(escaped(s)[0] == '\\' && escaped(s)[1] == c);
            assert(escaped(s).skip(2) == rest);
        } else {
            assert(escaped(s)[0] == c);
            assert(escaped(s).skip(1) == rest);
        }
    }
}

// -------------------------------------------------------------------------------------------
// What a file records
// -------------------------------------------------------------------------------------------

/// Why the metadata of an export cannot be written.
#[derive(Clone, Copy, Debug, PartialEq, Eq, Structural)]
pub enum MetadataError {
    /// The settings alone take more than 16 MB.
    Preset,
    /// With the source's tags they do.
    Combined,
}

impl MetadataError {
    pub fn message(self) -> (r: &'static str)
        ensures
            r@ == (match self {
                MetadataError::Preset => "Video preset metadata exceeds 16 MB"@,
                MetadataError::Combined => "Combined source and preset metadata exceeds 16 MB"@,
            }),
    {
        match self {
            Self::Preset => "Video preset metadata exceeds 16 MB",
            Self::Combined => "Combined source and preset metadata exceeds 16 MB",
        }
    }
}

/// One tag as a line.
pub open spec fn tag_line(key: Seq<char>, value: Seq<char>) -> Seq<char> {
    escaped(key) + "="@ + escaped(value) + "\n"@
}

/// The source's tags as lines. A preset it holds from an earlier export is left out, and any
/// other comment is kept under another key.
pub open spec fn tag_lines(tags: Seq<(Seq<char>, Seq<char>)>) -> Seq<char>
    decreases tags.len(),
{
    if tags.len() == 0 {
        Seq::empty()
    } else {
        let before = tag_lines(tags.drop_last());
        let (key, value) = tags.last();
        if !crate::text::alike(key, "comment"@) {
            before + tag_line(key, value)
        } else if crate::text::begins(value, crate::media::plan::preset_prefix()) {
            before
        } else {
            before + tag_line("source_comment"@, value)
        }
    }
}

/// The file's metadata: the source's tags when other tracks are kept, and the settings as a
/// comment an import can read back.
pub open spec fn metadata_text(
    tags: Seq<(Seq<char>, Seq<char>)>,
    keep: bool,
    preset: Seq<char>,
) -> Seq<char> {
    ";FFMETADATA1\n"@ + (if keep {
        tag_lines(tags)
    } else {
        Seq::empty()
    }) + tag_line("comment"@, crate::media::plan::preset_prefix() + preset)
}

fn add_tag(tags: &mut String, key: &str, value: &str)
    ensures
        final(tags)@ == old(tags)@ + tag_line(key@, value@),
{
    tags.append(escape(key).as_str());
    tags.append("=");
    tags.append(escape(value).as_str());
    tags.append("\n");
    assert(tags@ == old(tags)@ + tag_line(key@, value@));
}

impl<'a> ExportPlan<'a> {
    pub open spec fn metadata_outcome(self, preset: Seq<char>) -> Result<Seq<char>, MetadataError> {
        let text = metadata_text(
            crate::media::probe::tag_views(self.video.metadata@),
            self.options.preserve_streams,
            preset,
        );
        if crate::text::bytes(crate::media::plan::preset_prefix() + preset) > METADATA_LIMIT {
            Err(MetadataError::Preset)
        } else if crate::text::bytes(text) > METADATA_LIMIT {
            Err(MetadataError::Combined)
        } else {
            Ok(text)
        }
    }

    /// The file's metadata, in FFmpeg's format. `preset` is the settings as chosen and these
    /// options, as JSON: not the settings frames are rendered with, since importing those would
    /// apply the timing a second time.
    pub fn metadata(&self, preset: &str) -> (r: Result<String, MetadataError>)
        ensures
            match r {
                Ok(text) => self.metadata_outcome(preset@) == Ok::<Seq<char>, MetadataError>(text@),
                Err(e) => self.metadata_outcome(preset@) == Err::<Seq<char>, MetadataError>(e),
            },
    {
        let comment: String = join("CRTSim-Renderer-Preset:", preset);
        if comment.as_str().len() > METADATA_LIMIT {
            return Err(MetadataError::Preset);
        }
        let mut tags: String = crate::text::owned(";FFMETADATA1\n");
        let ghost views = crate::media::probe::tag_views(self.video.metadata@);
        if self.options.preserve_streams {
            let entries: &Vec<(String, String)> = &self.video.metadata;
            let mut i: usize = 0;
            assert(views.take(0) == Seq::<(Seq<char>, Seq<char>)>::empty());
            assert(tags@ == ";FFMETADATA1\n"@ + tag_lines(views.take(0)));
            while i < entries.len()
                invariant
                    i <= entries@.len(),
                    *entries == self.video.metadata,
                    views == crate::media::probe::tag_views(entries@),
                    tags@ == ";FFMETADATA1\n"@ + tag_lines(views.take(i as int)),
                decreases entries@.len() - i,
            {
                proof {
                    assert(views.take(i as int + 1).drop_last() == views.take(i as int));
                    assert(views.take(i as int + 1).last() == views[i as int]);
                }
                let key: &str = entries[i].0.as_str();
                let value: &str = entries[i].1.as_str();
                let ghost before = tags@;
                if alike_text(key, "comment") {
                    let chars: Vec<char> = chars_of(value);
                    // Exporting our own output again must not embed the old preset.
                    if !begins_with(chars.as_slice(), "CRTSim-Renderer-Preset:") {
                        add_tag(&mut tags, "source_comment", value);
                        assert(tags@ == ";FFMETADATA1\n"@ + (tag_lines(views.take(i as int))
                            + tag_line("source_comment"@, value@)));
                    }
                } else {
                    add_tag(&mut tags, key, value);
                    assert(tags@ == ";FFMETADATA1\n"@ + (tag_lines(views.take(i as int)) + tag_line(
                        key@,
                        value@,
                    )));
                }
                i = i + 1;
            }
            assert(views.take(i as int) == views);
        } else {
            assert(tags@ == ";FFMETADATA1\n"@ + Seq::<char>::empty());
        }
        add_tag(&mut tags, "comment", comment.as_str());
        if tags.as_str().len() > METADATA_LIMIT {
            return Err(MetadataError::Combined);
        }
        Ok(tags)
    }
}

// -------------------------------------------------------------------------------------------
// Presets in files
// -------------------------------------------------------------------------------------------

/// The first entry whose key is `comment`, from `i` on, whatever its case.
pub open spec fn first_comment(
    entries: Seq<(Seq<char>, crate::media::json::Tree)>,
    i: int,
) -> Option<crate::media::json::Tree>
    decreases entries.len() - i,
{
    if i >= entries.len() {
        None
    } else if crate::text::alike(entries[i].0, "comment"@) {
        Some(entries[i].1)
    } else {
        first_comment(entries, i + 1)
    }
}

/// The preset that a file's comment holds, as JSON.
pub open spec fn preset_in(root: crate::media::json::Tree) -> Option<Seq<char>> {
    match root.member("format"@).member("tags"@) {
        crate::media::json::Tree::Object(entries) => match first_comment(entries, 0) {
            Some(value) => match value.text() {
                Some(text) => if crate::text::begins(text, crate::media::plan::preset_prefix()) {
                    Some(text.skip(crate::media::plan::preset_prefix().len() as int))
                } else {
                    None
                },
                None => None,
            },
            None => None,
        },
        _ => None,
    }
}

/// A preset written as a file's comment is what reading the file gives back. JSON holds no
/// carriage returns.
pub proof fn presets_read_back(
    root: crate::media::json::Tree,
    entries: Seq<(Seq<char>, crate::media::json::Tree)>,
    preset: Seq<char>,
)
    requires
        !preset.contains('\r'),
        root.member("format"@).member("tags"@) == crate::media::json::Tree::Object(entries),
        first_comment(entries, 0) == Some(
            crate::media::json::Tree::Text(
                unescaped(escaped(crate::media::plan::preset_prefix() + preset)),
            ),
        ),
    ensures
        preset_in(root) == Some(preset),
{
    let prefix = crate::media::plan::preset_prefix();
    let text = prefix + preset;
    reveal_strlit("CRTSim-Renderer-Preset:");
    assert forall|i: int| 0 <= i < text.len() implies #[trigger] text[i] != '\r' by {
        if i >= prefix.len() {
            assert(text[i] == preset[i - prefix.len()]);
        }
    }
    escaping_reads_back(text);
    lemma_without_returns(text);
    assert(text.take(prefix.len() as int) == prefix);
    assert(text.skip(prefix.len() as int) == preset);
}

proof fn lemma_without_returns(s: Seq<char>)
    requires
        forall|i: int| 0 <= i < s.len() ==> #[trigger] s[i] != '\r',
    ensures
        without_returns(s) == s,
    decreases s.len(),
{
    if s.len() > 0 {
        lemma_without_returns(s.skip(1));
        assert(seq![s[0]] + s.skip(1) == s);
    }
}

/// Finds the preset in what ffprobe reports of a file.
pub fn preset_text(root: &Json) -> (r: Option<String>)
    ensures
        crate::path::is_some_text(r, preset_in(crate::media::json::tree(*root))),
{
    match root.get("format").get("tags") {
        Json::Object(entries) => {
            proof {
                crate::media::json::lemma_entry_trees(entries@);
            }
            let ghost all = crate::media::json::entry_trees(entries@);
            let mut i: usize = 0;
            while i < entries.len()
                invariant
                    i <= entries@.len(),
                    all.len() == entries@.len(),
                    crate::media::json::tree(*root).member("format"@).member("tags"@)
                        == crate::media::json::Tree::Object(all),
                    forall|k: int|
                        0 <= k < entries@.len() ==> #[trigger] all[k] == (
                            entries@[k].0@,
                            crate::media::json::tree(entries@[k].1),
                        ),
                    first_comment(all, 0) == first_comment(all, i as int),
                decreases entries@.len() - i,
            {
                assert(all[i as int].0 == entries@[i as int].0@);
                if alike_text(entries[i].0.as_str(), "comment") {
                    return match entries[i].1.as_text() {
                        Some(text) => {
                            let chars: Vec<char> = chars_of(text);
                            if begins_with(chars.as_slice(), "CRTSim-Renderer-Preset:") {
                                let prefix: Vec<char> = chars_of("CRTSim-Renderer-Preset:");
                                let rest: String = text_between(
                                    chars.as_slice(),
                                    prefix.len(),
                                    chars.len(),
                                );
                                assert(rest@ == text@.skip(prefix@.len() as int));
                                Some(rest)
                            } else {
                                None
                            }
                        },
                        None => None,
                    };
                }
                i = i + 1;
            }
            None
        },
        _ => None,
    }
}

/// Finds the preset in what ffprobe wrote of a file.
pub fn find_preset(report: &[u8]) -> (r: Option<String>)
    ensures
        crate::path::is_some_text(
            r,
            match crate::media::json::parsed(report@) {
                Some(root) => preset_in(root),
                None => None,
            },
        ),
{
    match crate::media::json::read_json(report) {
        Some(root) => preset_text(&root),
        None => None,
    }
}

/// Why a file's preset cannot be used.
#[derive(Clone, Copy, Debug, PartialEq, Eq, Structural)]
pub enum PresetError {
    Version,
    Config(ConfigError),
    Options(OptionsError),
}

/// What is wrong with a preset for a source of a size, if anything.
pub open spec fn preset_fault(
    version: u32,
    config: Config,
    options: Options,
    input: (u32, u32),
) -> Option<PresetError> {
    if version != 1 {
        Some(PresetError::Version)
    } else if let Some(e) = config.fault_for(input) {
        Some(PresetError::Config(e))
    } else if let Some(e) = options.fault() {
        Some(PresetError::Options(e))
    } else {
        None
    }
}

/// Checks a preset read from a file against the source it is to be used on.
pub fn check_preset(
    version: u32,
    config: &Config,
    options: &Options,
    input: (u32, u32),
) -> (r: Result<(), PresetError>)
    ensures
        r == (match preset_fault(version, *config, *options, input) {
            Some(e) => Err::<(), PresetError>(e),
            None => Ok::<(), PresetError>(()),
        }),
{
    if version != 1 {
        return Err(PresetError::Version);
    }
    match config.validate_for(input) {
        Err(e) => {
            return Err(PresetError::Config(e));
        },
        Ok(()) => {},
    }
    match options.validate() {
        Err(e) => Err(PresetError::Options(e)),
        Ok(()) => Ok(()),
    }
}

// -------------------------------------------------------------------------------------------
// What is left out
// -------------------------------------------------------------------------------------------

/// Why an export to a container leaves a track out, if it does.
pub open spec fn note_of(track: crate::media::probe::TrackView, container: Container) -> Option<
    Seq<char>,
> {
    let index = crate::text::decimal(track.index as nat);
    match track.kind {
        TrackKind::Subtitle => if container.subtitle_codec_text(track.codec) is None {
            Some(
                "Subtitle "@ + index + " ("@ + track.codec + ") cannot be stored in "@
                    + container.extension_text() + "; use MKV to preserve it."@,
            )
        } else {
            None
        },
        TrackKind::Attachment => if container != Container::Mkv {
            Some("Attachment "@ + index + " is preserved only in MKV."@)
        } else {
            None
        },
        TrackKind::Data => Some("Data track "@ + index + " is not copied."@),
        _ => None,
    }
}

pub open spec fn notes_of(tracks: Seq<Track>, container: Container) -> Seq<Seq<char>>
    decreases tracks.len(),
{
    if tracks.len() == 0 {
        Seq::empty()
    } else {
        match note_of(tracks.last()@, container) {
            Some(note) => notes_of(tracks.drop_last(), container).push(note),
            None => notes_of(tracks.drop_last(), container),
        }
    }
}

fn note(track: &Track, container: Container) -> (r: Option<String>)
    ensures
        crate::path::is_some_text(r, note_of(track@, container)),
{
    let index: String = decimal_text(track.index);
    match track.kind {
        TrackKind::Subtitle => match container.subtitle_codec(track.codec.as_str()) {
            Some(_) => None,
            None => {
                let mut r: String = join("Subtitle ", index.as_str());
                r.append(" (");
                r.append(track.codec.as_str());
                r.append(") cannot be stored in ");
                r.append(container.extension());
                r.append("; use MKV to preserve it.");
                Some(r)
            },
        },
        TrackKind::Attachment => if container != Container::Mkv {
            Some(crate::text::join3("Attachment ", index.as_str(), " is preserved only in MKV."))
        } else {
            None
        },
        TrackKind::Data => Some(
            crate::text::join3("Data track ", index.as_str(), " is not copied."),
        ),
        _ => None,
    }
}

/// Texts as they read.
pub open spec fn text_views(list: Seq<String>) -> Seq<Seq<char>> {
    Seq::new(list.len(), |i: int| list[i]@)
}

/// The tracks of `video` an export to `container` leaves out, when it keeps the others.
pub fn preservation_notes(video: &Video, container: Container) -> (r: Vec<String>)
    ensures
        text_views(r@) == notes_of(video.tracks@, container),
{
    let tracks: &Vec<Track> = &video.tracks;
    let mut r: Vec<String> = Vec::new();
    let mut i: usize = 0;
    while i < tracks.len()
        invariant
            i <= tracks@.len(),
            text_views(r@) == notes_of(tracks@.take(i as int), container),
        decreases tracks@.len() - i,
    {
        proof {
            assert(tracks@.take(i as int + 1).drop_last() == tracks@.take(i as int));
        }
        let ghost before = r@;
        match note(&tracks[i], container) {
            Some(text) => {
                r.push(text);
                assert(text_views(r@) == text_views(before).push(text@));
            },
            None => {},
        }
        i = i + 1;
    }
    assert(tracks@.take(i as int) == tracks@);
    r
}

} // verus!
