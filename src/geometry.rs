//! Rectangles and margin sets shared by the page-geometry stages.

use vstd::prelude::*;

verus! {

/// An axis-aligned content rectangle in pixels, origin top-left.
#[derive(Debug, Clone, Copy, PartialEq, Eq)]
pub struct ContentRect {
    pub x: u32,
    pub y: u32,
    pub width: u32,
    pub height: u32,
}

impl ContentRect {
    /// The right and bottom edges fit in a `u32`.
    pub open spec fn fits(&self) -> bool {
        self.x + self.width <= u32::MAX && self.y + self.height <= u32::MAX
    }

    pub fn new(x: u32, y: u32, width: u32, height: u32) -> (r: ContentRect)
        ensures
            r == (ContentRect { x, y, width, height }),
    {
        ContentRect { x, y, width, height }
    }

    pub fn right(&self) -> (r: u32)
        requires
            self.fits(),
        ensures
            r == self.x + self.width,
    {
        self.x + self.width
    }

    pub fn bottom(&self) -> (r: u32)
        requires
            self.fits(),
        ensures
            r == self.y + self.height,
    {
        self.y + self.height
    }
}

/// Pixel counts removed (or kept) on each side of a page.
#[derive(Debug, Clone, Copy, PartialEq, Eq)]
pub struct Margins {
    pub top: u32,
    pub bottom: u32,
    pub left: u32,
    pub right: u32,
}

impl Margins {
    /// The same margin on all four sides.
    pub fn uniform(value: u32) -> (r: Margins)
        ensures
            r.top == value && r.bottom == value && r.left == value && r.right == value,
    {
        Margins { top: value, bottom: value, left: value, right: value }
    }

    /// Left plus right; `u32` arithmetic that saturates rather than wraps.
    pub fn total_horizontal(&self) -> (r: u32)
        ensures
            r == if self.left + self.right <= u32::MAX { (self.left + self.right) as u32 } else { u32::MAX },
    {
        self.left.saturating_add(self.right)
    }

    /// Top plus bottom; `u32` arithmetic that saturates rather than wraps.
    pub fn total_vertical(&self) -> (r: u32)
        ensures
            r == if self.top + self.bottom <= u32::MAX { (self.top + self.bottom) as u32 } else { u32::MAX },
    {
        self.top.saturating_add(self.bottom)
    }
}

/// The outcome of trimming one image.
#[derive(Debug)]
pub struct TrimResult {
    pub input_path: String,
    pub output_path: String,
    pub original_size: (u32, u32),
    pub trimmed_size: (u32, u32),
    pub margins_applied: Margins,
}

/// How page content is told apart from the margin.
#[derive(Debug, Clone, Copy, PartialEq, Eq, Structural)]
pub enum ContentDetectionMode {
    BackgroundColor,
    EdgeDetection,
    Histogram,
    Combined,
}

impl Default for ContentDetectionMode {
    fn default() -> (r: ContentDetectionMode)
        ensures
            r == ContentDetectionMode::BackgroundColor,
    {
        ContentDetectionMode::BackgroundColor
    }
}

/// The failures of margin detection.
#[derive(Debug, Clone, PartialEq, Eq)]
pub enum MarginError {
    ImageNotFound(String),
    InvalidImage(String),
    NoContentDetected,
    IoError(String),
}

impl MarginError {
    /// The message shown for this error.
    pub fn message(&self) -> (r: String)
        ensures
            r@ == match self {
                MarginError::ImageNotFound(p) => "Image not found: "@ + p@,
                MarginError::InvalidImage(m) => "Invalid image: "@ + m@,
                MarginError::NoContentDetected => "No content detected in image"@,
                MarginError::IoError(m) => "IO error: "@ + m@,
            },
    {
        match self {
            MarginError::ImageNotFound(p) => {
                let mut s = String::from_str("Image not found: ");
                s.append(p.as_str());
                s
            },
            MarginError::InvalidImage(m) => {
                let mut s = String::from_str("Invalid image: ");
                s.append(m.as_str());
                s
            },
            MarginError::NoContentDetected => String::from_str("No content detected in image"),
            MarginError::IoError(m) => {
                let mut s = String::from_str("IO error: ");
                s.append(m.as_str());
                s
            },
        }
    }
}

} // verus!
