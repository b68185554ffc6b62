//! What the application decides as a user loads an image: a state machine
//! from the current state and an event to the next state. The work between
//! events (reading a file, decoding an image, drawing) is the host's.
use vstd::prelude::*;
use crate::image::{default_sizes, sized_for_image, PositionInfo, TEXTBOX_HEIGHT_PX};

verus! {

/// Where the loading of an image stands. `I` is the host's handle on a file
/// whose bytes have been read and whose image is being decoded.
pub enum AppState<I> {
    Ready,
    ReadingFile,
    DecodingImage(I),
}

/// An event of the loading. `I` as in `AppState`.
pub enum Msg<I> {
    /// The user has picked files; the host has started reading them.
    Files,
    /// A file's bytes have been read; the host has started decoding them.
    FileLoaded(I),
    /// The image being decoded is ready; it is `.0` pixels wide and `.1`
    /// high.
    ImageLoaded(u32, u32),
    /// The image could not be decoded, for the given reason.
    ImageErrored(String),
}

/// The status text of a state, and the style class of the spinner that
/// covers the page while the state lasts.
pub open spec fn status_of<I>(s: AppState<I>) -> (Seq<char>, Seq<char>) {
    match s {
        AppState::Ready => ("Ready"@, "display-none"@),
        AppState::ReadingFile => ("Reading file"@, "compute-modal"@),
        AppState::DecodingImage(_) => ("Decoding image"@, "compute-modal"@),
    }
}

/// What the host is to do once an event is taken.
#[derive(Clone, Copy, Debug, PartialEq, Eq)]
pub struct Outcome {
    /// The view is to be rendered again. Every event changes what it shows,
    /// so this is always set.
    pub should_render: bool,
    /// The canvases are to be drawn anew with the image of `file_info`, at
    /// the sizes of `position_info`.
    pub redraw: bool,
}

/// The state of the application: where loading stands, the errors to show,
/// the file whose image is on display, and the canvas sizes.
pub struct App<I> {
    pub state: AppState<I>,
    pub error_log: Vec<String>,
    pub file_info: Option<I>,
    pub position_info: PositionInfo,
}

impl<I> App<I> {
    /// Ready, with no errors, no image and the default canvas sizes.
    pub fn new() -> (app: App<I>)
        ensures
            app.state is Ready,
            app.error_log@.len() == 0,
            app.file_info is None,
            app.position_info == default_sizes(),
    {
        App {
            state: AppState::Ready,
            error_log: Vec::new(),
            file_info: None,
            position_info: PositionInfo::new(),
        }
    }

    /// Takes one event. The view is always to be rendered again; the
    /// canvases are to be drawn anew, resized to the image, when the image
    /// being decoded is ready.
    pub fn update(&mut self, msg: Msg<I>) -> (out: Outcome)
        requires
            msg matches Msg::ImageLoaded(w, h) ==> w <= i32::MAX && h + TEXTBOX_HEIGHT_PX
                <= i32::MAX,
        ensures
            out.should_render,
            match msg {
                Msg::Files => {
                    &&& final(self).state is ReadingFile
                    &&& final(self).error_log@.len() == 0
                    &&& final(self).file_info == old(self).file_info
                    &&& final(self).position_info == old(self).position_info
                    &&& !out.redraw
                },
                Msg::FileLoaded(info) => {
                    &&& final(self).state == AppState::DecodingImage(info)
                    &&& final(self).error_log@ == old(self).error_log@
                    &&& final(self).file_info == old(self).file_info
                    &&& final(self).position_info == old(self).position_info
                    &&& !out.redraw
                },
                Msg::ImageLoaded(w, h) => {
                    &&& final(self).state is Ready
                    &&& final(self).error_log@ == old(self).error_log@
                    &&& match old(self).state {
                        AppState::DecodingImage(info) => {
                            &&& final(self).file_info == Some(info)
                            &&& final(self).position_info == sized_for_image(w, h)
                            &&& out.redraw
                        },
                        _ => {
                            &&& final(self).file_info == old(self).file_info
                            &&& final(self).position_info == old(self).position_info
                            &&& !out.redraw
                        },
                    }
                },
                Msg::ImageErrored(err) => {
                    &&& final(self).state is Ready
                    &&& final(self).error_log@ == old(self).error_log@.push(err)
                    &&& final(self).file_info == old(self).file_info
                    &&& final(self).position_info == old(self).position_info
                    &&& !out.redraw
                },
            },
    {
        let redraw = match msg {
            Msg::ImageLoaded(w, h) => {
                let mut old_state = AppState::Ready;
                std::mem::swap(&mut self.state, &mut old_state);
                match old_state {
                    AppState::DecodingImage(info) => {
                        self.position_info.update_for_image(w, h);
                        self.file_info = Some(info);
                        true
                    },
                    _ => false,
                }
            },
            Msg::ImageErrored(err) => {
                self.error_log.push(err);
                self.state = AppState::Ready;
                false
            },
            Msg::FileLoaded(info) => {
                self.state = AppState::DecodingImage(info);
                false
            },
            Msg::Files => {
                self.error_log.clear();
                self.state = AppState::ReadingFile;
                false
            },
        };
        Outcome { should_render: true, redraw }
    }

    /// The status text and spinner class for the current state.
    pub fn status(&self) -> (r: (&'static str, &'static str))
        ensures
            (r.0@, r.1@) == status_of(self.state),
    {
        match self.state {
            AppState::Ready => ("Ready", "display-none"),
            AppState::ReadingFile => ("Reading file", "compute-modal"),
            AppState::DecodingImage(_) => ("Decoding image", "compute-modal"),
        }
    }
}

} // verus!
