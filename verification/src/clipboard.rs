//! The clipboard as the rest of the library sees it: a trait with text and
//! image access, and an in-memory clipboard that implements it.
use vstd::prelude::*;

verus! {

/// An image as it comes from and goes to the clipboard: raw RGBA, four bytes
/// per pixel, and its size in pixels.
#[derive(Debug, PartialEq, Eq)]
pub struct ClipImage {
    pub width: u32,
    pub height: u32,
    pub rgba: Vec<u8>,
}

/// The mathematical value of a [`ClipImage`].
pub struct ClipImageView {
    pub width: u32,
    pub height: u32,
    pub rgba: Seq<u8>,
}

impl View for ClipImage {
    type V = ClipImageView;

    open spec fn view(&self) -> ClipImageView {
        ClipImageView { width: self.width, height: self.height, rgba: self.rgba@ }
    }
}

impl Clone for ClipImage {
    fn clone(&self) -> (r: Self)
        ensures
            r@ == self@,
    {
        let rgba = self.rgba.clone();
        assert(rgba@ =~= self.rgba@);
        ClipImage { width: self.width, height: self.height, rgba }
    }
}

/// A failure to reach or use the clipboard.
#[derive(Debug, PartialEq, Eq)]
pub struct ClipboardError {
    pub message: String,
}

/// Access to a clipboard, whatever system stands behind it.
///
/// `text_reading` and `image_reading` say which answers a read of the
/// clipboard in a given state can give. They hold of every answer unless an
/// implementation says more of itself, so they promise nothing of a clipboard
/// that nothing checks; the in-memory clipboard pins them to what it holds.
pub trait Clipboard {
    /// Whether a text read of this clipboard may answer `r`.
    open spec fn text_reading(&self, r: Option<Seq<char>>) -> bool {
        true
    }

    /// Whether an image read of this clipboard may answer `r`.
    open spec fn image_reading(&self, r: Option<ClipImageView>) -> bool {
        true
    }

    /// The text now on the clipboard; `Ok(None)` when it holds no text. A
    /// read that succeeds answers one of the texts `text_reading` allows, and
    /// leaves no image answer possible that was not possible before.
    fn get_text(&mut self) -> (r: Result<Option<String>, ClipboardError>)
        ensures
            r matches Ok(o) ==> old(self).text_reading(opt_text_view(o)),
            forall|i: Option<ClipImageView>|
                #[trigger] final(self).image_reading(i) ==> old(self).image_reading(i),
    ;

    /// Puts a text on the clipboard.
    fn set_text(&mut self, text: &str) -> Result<(), ClipboardError>;

    /// The image now on the clipboard; `Ok(None)` when it holds no image. A
    /// read that succeeds answers one of the images `image_reading` allows.
    fn get_image(&mut self) -> (r: Result<Option<ClipImage>, ClipboardError>)
        ensures
            r matches Ok(o) ==> old(self).image_reading(opt_image_view(o)),
    ;

    /// Puts an image on the clipboard.
    fn set_image(&mut self, image: &ClipImage) -> Result<(), ClipboardError>;
}

/// A clipboard held in memory: at most one of a text and an image.
pub struct MockClipboard {
    text: Option<String>,
    image: Option<ClipImage>,
}

/// The mathematical value of a [`MockClipboard`].
pub struct MockClipboardView {
    pub text: Option<Seq<char>>,
    pub image: Option<ClipImageView>,
}

/// The view of an optional string.
pub open spec fn opt_text_view(o: Option<String>) -> Option<Seq<char>> {
    match o {
        Some(s) => Some(s@),
        None => None,
    }
}

/// The view of an optional image.
pub open spec fn opt_image_view(o: Option<ClipImage>) -> Option<ClipImageView> {
    match o {
        Some(i) => Some(i@),
        None => None,
    }
}

impl View for MockClipboard {
    type V = MockClipboardView;

    closed spec fn view(&self) -> MockClipboardView {
        MockClipboardView { text: opt_text_view(self.text), image: opt_image_view(self.image) }
    }
}

/// The clipboard after a text is put on it: the text replaces any image.
pub open spec fn with_text(t: Seq<char>) -> MockClipboardView {
    MockClipboardView { text: Some(t), image: None }
}

/// The clipboard after an image is put on it: the image replaces any text.
pub open spec fn with_image(i: ClipImageView) -> MockClipboardView {
    MockClipboardView { text: None, image: Some(i) }
}

impl MockClipboard {
    /// An empty clipboard.
    pub fn new() -> (r: Self)
        ensures
            r@.text is None,
            r@.image is None,
    {
        MockClipboard { text: None, image: None }
    }

    /// Makes `text` the clipboard content, as an outside copy would; any image
    /// goes.
    pub fn put(&mut self, text: &str)
        ensures
            final(self)@ == with_text(text@),
    {
        self.text = Some(text.to_owned());
        self.image = None;
    }

    /// Makes `image` the clipboard content; any text goes.
    pub fn put_image(&mut self, image: ClipImage)
        ensures
            final(self)@ == with_image(image@),
    {
        self.image = Some(image);
        self.text = None;
    }
}

impl Clipboard for MockClipboard {
    /// A text read answers exactly the text the clipboard holds.
    open spec fn text_reading(&self, r: Option<Seq<char>>) -> bool {
        r == self@.text
    }

    /// An image read answers exactly the image the clipboard holds.
    open spec fn image_reading(&self, r: Option<ClipImageView>) -> bool {
        r == self@.image
    }

    fn get_text(&mut self) -> (r: Result<Option<String>, ClipboardError>)
        ensures
            final(self)@ == old(self)@,
            r matches Ok(o) && opt_text_view(o) == old(self)@.text,
    {
        match &self.text {
            Some(t) => Ok(Some(t.clone())),
            None => Ok(None),
        }
    }

    fn set_text(&mut self, text: &str) -> (r: Result<(), ClipboardError>)
        ensures
            final(self)@ == with_text(text@),
            r is Ok,
    {
        self.text = Some(text.to_owned());
        self.image = None;
        Ok(())
    }

    fn get_image(&mut self) -> (r: Result<Option<ClipImage>, ClipboardError>)
        ensures
            final(self)@ == old(self)@,
            r matches Ok(o) && opt_image_view(o) == old(self)@.image,
    {
        match &self.image {
            Some(i) => Ok(Some(i.clone())),
            None => Ok(None),
        }
    }

    fn set_image(&mut self, image: &ClipImage) -> (r: Result<(), ClipboardError>)
        ensures
            final(self)@ == with_image(image@),
            r is Ok,
    {
        self.image = Some(image.clone());
        self.text = None;
        Ok(())
    }
}

/// Reading the in-memory clipboard gives back what was last put on it, and a
/// text and an image never stand on it together.
pub proof fn lemma_mock_read_after_write(t: Seq<char>, i: ClipImageView)
    ensures
        with_text(t).text == Some(t),
        with_text(t).image is None,
        with_image(i).image == Some(i),
        with_image(i).text is None,
{
}

} // verus!
