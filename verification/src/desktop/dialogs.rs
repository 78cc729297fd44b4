//! Native file dialogs: what each one offers, and what becomes of the path chosen.
use crate::desktop::export_ui::ExportFormat;
use crate::path::{extension, with_extension};
use crate::text::owned;
use vstd::prelude::*;

verus! {

#[derive(Clone, Copy, Debug, PartialEq, Eq, Structural)]
pub enum Dialog {
    OpenProject,
    SaveProject,
    Lut,
    File,
    ExportVideo,
    ImportPreset,
    LoadPreset,
    SavePreset,
    Export,
}

/// What a file dialog offers: the files it filters for and, when it saves, the name it suggests.
#[derive(Debug)]
pub struct Chooser {
    pub filter: &'static str,
    pub extensions: Vec<&'static str>,
    /// For a save dialog, the suggested file name before its extension, the filter's only one.
    pub save_as: Option<&'static str>,
}

/// Files that open as video.
pub open spec fn video_extensions() -> Seq<Seq<char>> {
    seq!["mp4"@, "mkv"@, "mov"@, "webm"@, "avi"@, "m4v"@]
}

/// Files that open: images and videos.
pub open spec fn media_extensions() -> Seq<Seq<char>> {
    crate::crt::input::image_extensions() + video_extensions()
}

pub open spec fn texts(list: Seq<&'static str>) -> Seq<Seq<char>> {
    list.map_values(|t: &'static str| t@)
}

fn add_videos(list: &mut Vec<&'static str>)
    ensures
        texts(final(list)@) == texts(old(list)@) + video_extensions(),
{
    list.push("mp4");
    list.push("mkv");
    list.push("mov");
    list.push("webm");
    list.push("avi");
    list.push("m4v");
    assert(texts(list@) =~= texts(old(list)@) + video_extensions());
}

/// The extensions of the files that open.
pub fn openable() -> (r: Vec<&'static str>)
    ensures
        texts(r@) == media_extensions(),
{
    let mut list: Vec<&'static str> = Vec::new();
    list.push("png");
    list.push("jpg");
    list.push("jpeg");
    list.push("webp");
    list.push("bmp");
    list.push("gif");
    assert(texts(list@) =~= crate::crt::input::image_extensions());
    add_videos(&mut list);
    list
}

impl Dialog {
    pub open spec fn filter_text(self, export: ExportFormat) -> Seq<char> {
        match self {
            Dialog::OpenProject => "CRT project"@,
            Dialog::SaveProject => "CRT project"@,
            Dialog::Lut => "3D color LUT"@,
            Dialog::File => "Images and videos"@,
            Dialog::ExportVideo => export.filter_text(),
            Dialog::ImportPreset => "Rendered image/video"@,
            Dialog::LoadPreset => "CRT preset"@,
            Dialog::SavePreset => "CRT preset"@,
            Dialog::Export => "PNG image"@,
        }
    }

    pub open spec fn extensions_of(self, export: ExportFormat) -> Seq<Seq<char>> {
        match self {
            Dialog::OpenProject => seq!["crtsim"@],
            Dialog::SaveProject => seq!["crtsim"@],
            Dialog::Lut => seq!["cube"@],
            Dialog::File => media_extensions(),
            Dialog::ExportVideo => seq![export.extension_text()],
            Dialog::ImportPreset => seq!["png"@] + video_extensions(),
            Dialog::LoadPreset => seq!["json"@],
            Dialog::SavePreset => seq!["json"@],
            Dialog::Export => seq!["png"@],
        }
    }

    /// The name that a dialog that saves suggests.
    pub open spec fn suggestion(self) -> Option<Seq<char>> {
        match self {
            Dialog::SaveProject => Some("project"@),
            Dialog::ExportVideo => Some("rendered"@),
            Dialog::SavePreset => Some("my-crt"@),
            Dialog::Export => Some("rendered"@),
            _ => None,
        }
    }

    /// What a dialog offers; `export` is the format a video is exported in.
    pub fn chooser(self, export: ExportFormat) -> (r: Chooser)
        ensures
            r.filter@ == self.filter_text(export),
            texts(r.extensions@) == self.extensions_of(export),
            match (r.save_as, self.suggestion()) {
                (Some(name), Some(text)) => name@ == text,
                (None, None) => true,
                _ => false,
            },
            r.save_as is Some ==> r.extensions@.len() == 1,
    {
        let filter: &'static str = match self {
            Dialog::OpenProject => "CRT project",
            Dialog::SaveProject => "CRT project",
            Dialog::Lut => "3D color LUT",
            Dialog::File => "Images and videos",
            Dialog::ExportVideo => export.filter(),
            Dialog::ImportPreset => "Rendered image/video",
            Dialog::LoadPreset => "CRT preset",
            Dialog::SavePreset => "CRT preset",
            Dialog::Export => "PNG image",
        };
        let save_as: Option<&'static str> = match self {
            Dialog::SaveProject => Some("project"),
            Dialog::ExportVideo => Some("rendered"),
            Dialog::SavePreset => Some("my-crt"),
            Dialog::Export => Some("rendered"),
            _ => None,
        };
        let extensions: Vec<&'static str> = match self {
            Dialog::File => openable(),
            _ => {
                let mut list: Vec<&'static str> = Vec::new();
                list.push(
                    match self {
                        Dialog::OpenProject => "crtsim",
                        Dialog::SaveProject => "crtsim",
                        Dialog::Lut => "cube",
                        Dialog::ExportVideo => export.extension(),
                        Dialog::LoadPreset => "json",
                        Dialog::SavePreset => "json",
                        _ => "png",
                    },
                );
                if self == Dialog::ImportPreset {
                    assert(texts(list@) =~= seq!["png"@]);
                    add_videos(&mut list);
                }
                list
            },
        };
        assert(texts(extensions@) =~= self.extensions_of(export));
        assert(extensions@.len() == texts(extensions@).len());
        Chooser { filter, extensions, save_as }
    }
}

/// Where a dialog that saves writes.
#[derive(Debug)]
pub struct Destination {
    pub path: String,
    /// Whether the extension was added here, so that the dialog has not asked about the path.
    pub added: bool,
}

/// The path that a save dialog gave, with the extension where it has none.
pub fn destination(path: &str, suffix: &str) -> (r: Destination)
    ensures
        r.added == (crate::path::extension_of(path@) is None),
        r.path@ == if r.added {
            crate::path::extended(path@, suffix@)
        } else {
            path@
        },
{
    match extension(path) {
        Some(_) => Destination { path: owned(path), added: false },
        None => Destination { path: with_extension(path, suffix), added: true },
    }
}

/// Whether to ask before a destination is written: native dialogs confirm the path they return,
/// so only one that got its extension here and is already there.
pub fn asks_to_replace(destination: &Destination, found: bool) -> (r: bool)
    ensures
        r == (destination.added && found),
{
    destination.added && found
}

} // verus!
