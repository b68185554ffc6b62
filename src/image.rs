//! The kinds of image that are shown side by side, and the data around them:
//! captions and download names, the loaded file, and the canvas sizes.
use vstd::prelude::*;
use vstd::string::StringExecFns;

verus! {

/// Which variant of the loaded image a view shows: the original, its colours
/// turned half a turn, or its hues stretched away from a reference hue.
#[derive(Clone, Copy, Debug, PartialEq, Eq)]
pub enum ImType {
    Original,
    Rotated,
    Stretch,
}

impl Default for ImType {
    fn default() -> (t: ImType)
        ensures
            t == ImType::Original,
    {
        ImType::Original
    }
}

/// The name of a variant, as shown to the user.
pub open spec fn label_of(t: ImType) -> Seq<char> {
    match t {
        ImType::Original => "Original"@,
        ImType::Rotated => "Color Rotated"@,
        ImType::Stretch => "Color Stretched"@,
    }
}

/// The text of a variant's download button.
pub open spec fn button_text_of(t: ImType) -> Seq<char> {
    match t {
        ImType::Original => "Download original"@,
        ImType::Rotated => "Download color-rotated"@,
        ImType::Stretch => "Download color-stretched"@,
    }
}

/// The word that ends the name of a variant's downloaded file.
pub open spec fn file_suffix_of(t: ImType) -> Seq<char> {
    match t {
        ImType::Original => "original"@,
        ImType::Rotated => "rotated"@,
        ImType::Stretch => "stretch"@,
    }
}

/// The caption under a variant of the file `fname`: the file name alone for
/// the original, else the file name, a colon and the variant's name.
pub open spec fn caption_of(t: ImType, fname: Seq<char>) -> Seq<char> {
    match t {
        ImType::Original => fname,
        _ => fname + ": "@ + label_of(t),
    }
}

/// The name, without extension, under which a variant is downloaded, for a
/// file whose name without extension is `stem`: the stem, a dash and the
/// variant's word.
pub open spec fn download_name_of(t: ImType, stem: Seq<char>) -> Seq<char> {
    stem + "-"@ + file_suffix_of(t)
}

/// The download name of a variant of the file `fname` whose stem is `stem`,
/// or of `fname` itself where it has no stem.
pub open spec fn name_for_of(t: ImType, stem: Option<Seq<char>>, fname: Seq<char>) -> Seq<char> {
    download_name_of(
        t,
        match stem {
            Some(s) => s,
            None => fname,
        },
    )
}

/// Relies on `std::path::Path::file_stem`: the last component of the path
/// without its extension, or `None` where the path has no file name. Which
/// characters separate components depends on the platform, so nothing is
/// stated of the result. A path made from a `str` is valid UTF-8, so the
/// conversion back to a `String` loses nothing.
#[verifier::external_body]
fn file_stem(path: &str) -> Option<String> {
    match std::path::Path::new(path).file_stem() {
        Some(stem) => Some(stem.to_string_lossy().into_owned()),
        None => None,
    }
}

impl ImType {
    /// The variant's name, as shown to the user.
    pub fn label(&self) -> (r: &'static str)
        ensures
            r@ == label_of(*self),
    {
        match self {
            ImType::Original => "Original",
            ImType::Rotated => "Color Rotated",
            ImType::Stretch => "Color Stretched",
        }
    }

    /// The text of the variant's download button.
    pub fn button_text(&self) -> (r: &'static str)
        ensures
            r@ == button_text_of(*self),
    {
        match self {
            ImType::Original => "Download original",
            ImType::Rotated => "Download color-rotated",
            ImType::Stretch => "Download color-stretched",
        }
    }

    /// The caption drawn under this variant of the file `fname`.
    pub fn caption(&self, fname: &str) -> (r: String)
        ensures
            r@ == caption_of(*self, fname@),
    {
        let mut text = fname.to_owned();
        match self {
            ImType::Original => {},
            _ => {
                text.append(": ");
                text.append(self.label());
            },
        }
        text
    }

    /// The name, without extension, under which this variant of a file whose
    /// name without extension is `stem` is downloaded.
    pub fn download_name(&self, stem: &str) -> (r: String)
        ensures
            r@ == download_name_of(*self, stem@),
    {
        let mut name = stem.to_owned();
        name.append("-");
        let suffix: &str = match self {
            ImType::Original => "original",
            ImType::Rotated => "rotated",
            ImType::Stretch => "stretch",
        };
        name.append(suffix);
        name
    }

    /// The name, without extension, under which this variant of the file
    /// `fname` is downloaded, where `stem` is what `Path::file_stem` gave for
    /// `fname`: the download name of the stem, or of `fname` itself where
    /// there is none.
    pub fn name_for(&self, stem: Option<&str>, fname: &str) -> (r: String)
        ensures
            r@ == name_for_of(
                *self,
                match stem {
                    Some(s) => Some(s@),
                    None => None,
                },
                fname@,
            ),
    {
        match stem {
            Some(s) => self.download_name(s),
            None => self.download_name(fname),
        }
    }

    /// The name, without extension, under which this variant of the file
    /// `fname` is downloaded: `name_for` applied to the file's stem as the
    /// platform's path syntax finds it.
    pub fn basename(&self, fname: &str) -> (r: String)
        ensures
            exists|stem: Option<Seq<char>>| r@ == #[trigger] name_for_of(*self, stem, fname@),
    {
        match file_stem(fname) {
            Some(stem) => self.name_for(Some(stem.as_str()), fname),
            None => self.name_for(None, fname),
        }
    }
}

/// The bytes of a file the user picked, and its name.
pub struct FileData {
    pub content: Vec<u8>,
    pub name: String,
}

/// Height of the text box under each image, in canvas pixels.
pub const TEXTBOX_HEIGHT_PX: i32 = 20;

/// The sizes of the canvases, which follow the loaded image.
pub struct PositionInfo {
    /// Width and height of the loaded image, once one is loaded.
    pub image_dims: Option<(u32, u32)>,
    pub canv_width: i32,
    pub image_height: i32,
    pub canv_height: i32,
}

/// The sizes before any image is loaded: a 300 by 200 image area and the
/// text box under it.
pub open spec fn default_sizes() -> PositionInfo {
    PositionInfo { image_dims: None, canv_width: 300, image_height: 200, canv_height: 220 }
}

/// The sizes once an image of `width` by `height` pixels is loaded: the
/// canvas takes its width, and its height plus the text box.
pub open spec fn sized_for_image(width: u32, height: u32) -> PositionInfo {
    PositionInfo {
        image_dims: Some((width, height)),
        canv_width: width as i32,
        image_height: height as i32,
        canv_height: (height + TEXTBOX_HEIGHT_PX) as i32,
    }
}

impl PositionInfo {
    /// The canvas is as wide as the image and holds the text box under it.
    pub open spec fn wf(&self) -> bool {
        self.canv_height == self.image_height + TEXTBOX_HEIGHT_PX
    }

    /// A 300 by 200 image area until an image is loaded.
    pub fn new() -> (p: PositionInfo)
        ensures
            p == default_sizes(),
            p.wf(),
    {
        let image_height: i32 = 200;
        PositionInfo {
            image_dims: None,
            canv_width: 300,
            image_height,
            canv_height: image_height + TEXTBOX_HEIGHT_PX,
        }
    }

    /// An image of `width` by `height` pixels has been loaded: the canvas
    /// takes its width, and its height plus the text box.
    pub fn update_for_image(&mut self, width: u32, height: u32)
        requires
            width <= i32::MAX,
            height + TEXTBOX_HEIGHT_PX <= i32::MAX,
        ensures
            *final(self) == sized_for_image(width, height),
            final(self).wf(),
    {
        self.image_dims = Some((width, height));
        self.canv_width = width as i32;
        self.image_height = height as i32;
        self.canv_height = self.image_height + TEXTBOX_HEIGHT_PX;
    }

    /// The width of the canvas, in canvas pixels.
    pub fn canv_width(&self) -> (w: i32)
        ensures
            w == self.canv_width,
    {
        self.canv_width
    }

    /// The height of the canvas, in canvas pixels.
    pub fn canv_height(&self) -> (h: i32)
        ensures
            h == self.canv_height,
    {
        self.canv_height
    }

    /// The height of the image on the canvas, in canvas pixels.
    pub fn image_height(&self) -> (h: i32)
        ensures
            h == self.image_height,
    {
        self.image_height
    }
}

impl Default for PositionInfo {
    fn default() -> (p: PositionInfo)
        ensures
            p == default_sizes(),
            p.wf(),
    {
        PositionInfo::new()
    }
}

} // verus!
