//! What the application is started with.
use crate::cli::Backend;
use crate::text::{begins_with, chars_of, join, owned, same_text};
use vstd::prelude::*;

verus! {

/// What the application opens with.
#[derive(Debug)]
pub struct Startup {
    /// The image or video to open.
    pub input: Option<String>,
    pub backend: Backend,
    /// Where a smoke test saves its screenshot.
    pub smoke_test: Option<String>,
    pub smoke_welcome: bool,
    pub smoke_gallery: bool,
    pub smoke_lut_gallery: bool,
    pub smoke_export: bool,
}

/// What an application that opens is like.
pub ghost struct StartupView {
    pub input: Option<Seq<char>>,
    pub backend: Backend,
    pub smoke_test: Option<Seq<char>>,
    pub smoke_welcome: bool,
    pub smoke_gallery: bool,
    pub smoke_lut_gallery: bool,
    pub smoke_export: bool,
}

impl View for Startup {
    type V = StartupView;

    open spec fn view(&self) -> StartupView {
        StartupView {
            input: match self.input {
                Some(text) => Some(text@),
                None => None,
            },
            backend: self.backend,
            smoke_test: match self.smoke_test {
                Some(text) => Some(text@),
                None => None,
            },
            smoke_welcome: self.smoke_welcome,
            smoke_gallery: self.smoke_gallery,
            smoke_lut_gallery: self.smoke_lut_gallery,
            smoke_export: self.smoke_export,
        }
    }
}

/// Why the application does not open.
#[derive(Debug)]
pub enum Refused {
    /// A backend that there is none of, or none named.
    Backend,
    Unknown(String),
    /// A second image or video.
    Second,
    /// A smoke test without a path.
    NoPath,
}

impl Refused {
    pub open spec fn text(self) -> Seq<char> {
        match self {
            Refused::Backend => "Expected --backend auto|vulkan|dx12|metal"@,
            Refused::Unknown(option) => "Unknown option: "@ + option@,
            Refused::Second => "Only one image or video can be opened at startup"@,
            Refused::NoPath => "--smoke-test needs a new PNG path"@,
        }
    }

    pub fn message(&self) -> (r: String)
        ensures
            r@ == self.text(),
    {
        match self {
            Refused::Backend => owned("Expected --backend auto|vulkan|dx12|metal"),
            Refused::Unknown(option) => join("Unknown option: ", option.as_str()),
            Refused::Second => owned("Only one image or video can be opened at startup"),
            Refused::NoPath => owned("--smoke-test needs a new PNG path"),
        }
    }
}

/// What comes of the arguments.
#[derive(Debug)]
pub enum Start {
    Open(Startup),
    Help,
    Refused(Refused),
}

/// What comes of the arguments, as it reads.
pub ghost enum StartView {
    Open(StartupView),
    Help,
    BadBackend,
    Unknown(Seq<char>),
    Second,
    NoPath,
}

impl View for Start {
    type V = StartView;

    open spec fn view(&self) -> StartView {
        match *self {
            Start::Open(startup) => StartView::Open(startup@),
            Start::Help => StartView::Help,
            Start::Refused(Refused::Backend) => StartView::BadBackend,
            Start::Refused(Refused::Unknown(option)) => StartView::Unknown(option@),
            Start::Refused(Refused::Second) => StartView::Second,
            Start::Refused(Refused::NoPath) => StartView::NoPath,
        }
    }
}

pub open spec fn backend_named(name: Seq<char>) -> Option<Backend> {
    if name == "vulkan"@ {
        Some(Backend::Vulkan)
    } else if name == "dx12"@ {
        Some(Backend::Dx12)
    } else if name == "metal"@ {
        Some(Backend::Metal)
    } else if name == "auto"@ {
        Some(Backend::Auto)
    } else {
        None
    }
}

fn backend_of(name: &str) -> (r: Option<Backend>)
    ensures
        r == backend_named(name@),
{
    if same_text(name, "vulkan") {
        Some(Backend::Vulkan)
    } else if same_text(name, "dx12") {
        Some(Backend::Dx12)
    } else if same_text(name, "metal") {
        Some(Backend::Metal)
    } else if same_text(name, "auto") {
        Some(Backend::Auto)
    } else {
        None
    }
}

impl StartupView {
    /// With no arguments.
    pub open spec fn plain() -> StartupView {
        StartupView {
            input: None,
            backend: Backend::Auto,
            smoke_test: None,
            smoke_welcome: false,
            smoke_gallery: false,
            smoke_lut_gallery: false,
            smoke_export: false,
        }
    }

    /// What comes of the arguments from one on, after the ones before it. They are taken in
    /// order, and the first that asks for help or is refused ends it.
    pub open spec fn given(self, args: Seq<String>, from: int) -> StartView
        decreases args.len() - from,
    {
        if from < 0 || from >= args.len() {
            StartView::Open(self)
        } else {
            let arg = args[from]@;
            if arg == "--smoke-welcome"@ {
                (StartupView { smoke_welcome: true, ..self }).given(args, from + 1)
            } else if arg == "--smoke-gallery"@ {
                (StartupView { smoke_gallery: true, ..self }).given(args, from + 1)
            } else if arg == "--smoke-lut-gallery"@ {
                (StartupView { smoke_lut_gallery: true, ..self }).given(args, from + 1)
            } else if arg == "--smoke-export"@ {
                (StartupView { smoke_export: true, ..self }).given(args, from + 1)
            } else if arg == "--backend"@ {
                if from + 1 >= args.len() {
                    StartView::BadBackend
                } else {
                    match backend_named(args[from + 1]@) {
                        Some(backend) => (StartupView { backend, ..self }).given(args, from + 2),
                        None => StartView::BadBackend,
                    }
                }
            } else if arg == "--smoke-test"@ {
                if from + 1 >= args.len() {
                    StartView::NoPath
                } else {
                    (StartupView { smoke_test: Some(args[from + 1]@), ..self }).given(
                        args,
                        from + 2,
                    )
                }
            } else if arg == "--help"@ || arg == "-h"@ {
                StartView::Help
            } else if crate::text::begins(arg, "-"@) {
                StartView::Unknown(arg)
            } else if self.input is None {
                (StartupView { input: Some(arg), ..self }).given(args, from + 1)
            } else {
                StartView::Second
            }
        }
    }
}

/// Reads the arguments the application is started with, without its own name.
pub fn read_arguments(args: &Vec<String>) -> (r: Start)
    ensures
        r@ == StartupView::plain().given(args@, 0),
{
    let mut s: Startup = Startup {
        input: None,
        backend: Backend::Auto,
        smoke_test: None,
        smoke_welcome: false,
        smoke_gallery: false,
        smoke_lut_gallery: false,
        smoke_export: false,
    };
    let mut i: usize = 0;
    while i < args.len()
        invariant
            i <= args@.len(),
            StartupView::plain().given(args@, 0) == s@.given(args@, i as int),
        decreases args@.len() - i,
    {
        let arg: &str = args[i].as_str();
        let rest: usize = args.len() - i;
        if same_text(arg, "--smoke-welcome") {
            s.smoke_welcome = true;
        } else if same_text(arg, "--smoke-gallery") {
            s.smoke_gallery = true;
        } else if same_text(arg, "--smoke-lut-gallery") {
            s.smoke_lut_gallery = true;
        } else if same_text(arg, "--smoke-export") {
            s.smoke_export = true;
        } else if same_text(arg, "--backend") {
            if rest == 1 {
                return Start::Refused(Refused::Backend);
            }
            match backend_of(args[i + 1].as_str()) {
                Some(backend) => {
                    s.backend = backend;
                },
                None => {
                    return Start::Refused(Refused::Backend);
                },
            }
            i = i + 1;
        } else if same_text(arg, "--smoke-test") {
            if rest == 1 {
                return Start::Refused(Refused::NoPath);
            }
            s.smoke_test = Some(owned(args[i + 1].as_str()));
            i = i + 1;
        } else if same_text(arg, "--help") || same_text(arg, "-h") {
            return Start::Help;
        } else if begins_with(chars_of(arg).as_slice(), "-") {
            return Start::Refused(Refused::Unknown(owned(arg)));
        } else if s.input.is_none() {
            s.input = Some(owned(arg));
        } else {
            return Start::Refused(Refused::Second);
        }
        i = i + 1;
    }
    Start::Open(s)
}

pub open spec fn help_said() -> Seq<char> {
    "crtsim-desktop [IMAGE_OR_VIDEO] [--backend auto|vulkan|dx12|metal]\nOpen media, adjust effects, load/save presets and export PNG or video from the window.\nVideo requires FFmpeg and ffprobe on PATH."@
}

pub fn help_text() -> (r: &'static str)
    ensures
        r@ == help_said(),
{
    "crtsim-desktop [IMAGE_OR_VIDEO] [--backend auto|vulkan|dx12|metal]\nOpen media, adjust effects, load/save presets and export PNG or video from the window.\nVideo requires FFmpeg and ffprobe on PATH."
}

} // verus!
