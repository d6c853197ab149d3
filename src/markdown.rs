//! Records of the Markdown export: text boxes on a page and the export
//! options.

use vstd::prelude::*;

verus! {

/// A text box on a page, in pixels.
#[derive(Debug, Clone, Copy, PartialEq, Eq)]
pub struct BoundingBox {
    pub x: u32,
    pub y: u32,
    pub width: u32,
    pub height: u32,
}

impl BoundingBox {
    /// The right and bottom edges fit in a `u32`.
    pub open spec fn fits(&self) -> bool {
        self.x + self.width <= u32::MAX && self.y + self.height <= u32::MAX
    }

    pub fn new(x: u32, y: u32, width: u32, height: u32) -> (r: BoundingBox)
        ensures
            r == (BoundingBox { x, y, width, height }),
    {
        BoundingBox { x, y, width, height }
    }

    pub fn right(&self) -> (r: u32)
        requires
            self.fits(),
        ensures
            r == self.x + self.width,
    {
        self.x + self.width
    }

    pub fn bottom(&self) -> (r: u32)
        requires
            self.fits(),
        ensures
            r == self.y + self.height,
    {
        self.y + self.height
    }

    pub fn center_x(&self) -> (r: u32)
        requires
            self.fits(),
        ensures
            r == self.x + self.width / 2,
    {
        self.x + self.width / 2
    }

    pub fn center_y(&self) -> (r: u32)
        requires
            self.fits(),
        ensures
            r == self.y + self.height / 2,
    {
        self.y + self.height / 2
    }

    pub fn area(&self) -> (r: u64)
        ensures
            r == self.width * self.height,
    {
        assert(self.width * self.height <= u64::MAX) by (nonlinear_arith)
            requires self.width <= u32::MAX, self.height <= u32::MAX;
        self.width as u64 * self.height as u64
    }

    /// The point lies inside; the right and bottom edges are outside.
    pub fn contains(&self, x: u32, y: u32) -> (r: bool)
        requires
            self.fits(),
        ensures
            r == (self.x <= x < self.x + self.width && self.y <= y < self.y + self.height),
    {
        x >= self.x && x < self.right() && y >= self.y && y < self.bottom()
    }

    /// The two boxes share an area; touching edges do not count.
    pub fn overlaps(&self, other: &BoundingBox) -> (r: bool)
        requires
            self.fits(),
            other.fits(),
        ensures
            r == !(self.x + self.width <= other.x || other.x + other.width <= self.x || self.y
                + self.height <= other.y || other.y + other.height <= self.y),
    {
        !(self.right() <= other.x || other.right() <= self.x || self.bottom() <= other.y
            || other.bottom() <= self.y)
    }

    /// The smallest box holding both.
    pub fn merge(&self, other: &BoundingBox) -> (r: BoundingBox)
        requires
            self.fits(),
            other.fits(),
        ensures
            r.x == if self.x <= other.x { self.x } else { other.x },
            r.y == if self.y <= other.y { self.y } else { other.y },
            r.x + r.width == if self.x + self.width >= other.x + other.width {
                self.x + self.width
            } else {
                other.x + other.width
            },
            r.y + r.height == if self.y + self.height >= other.y + other.height {
                self.y + self.height
            } else {
                other.y + other.height
            },
    {
        let x = if self.x <= other.x { self.x } else { other.x };
        let y = if self.y <= other.y { self.y } else { other.y };
        let right = if self.right() >= other.right() { self.right() } else { other.right() };
        let bottom = if self.bottom() >= other.bottom() { self.bottom() } else { other.bottom() };
        BoundingBox { x, y, width: right - x, height: bottom - y }
    }
}

impl Default for BoundingBox {
    fn default() -> (r: BoundingBox)
        ensures
            r == (BoundingBox { x: 0, y: 0, width: 0, height: 0 }),
    {
        BoundingBox { x: 0, y: 0, width: 0, height: 0 }
    }
}

/// The writing direction assumed for the text.
#[derive(Debug, Clone, Copy, PartialEq, Eq, Structural)]
pub enum TextDirectionOption {
    Auto,
    Vertical,
    Horizontal,
}

impl Default for TextDirectionOption {
    fn default() -> (r: TextDirectionOption)
        ensures
            r == TextDirectionOption::Auto,
    {
        TextDirectionOption::Auto
    }
}

/// The failures of the Markdown export.
#[derive(Debug, Clone, PartialEq, Eq)]
pub enum MarkdownError {
    PdfNotFound(String),
    InvalidPdf(String),
    OcrFailed(String),
    ProcessingFailed(String),
    ValidationFailed(String),
    IoError(String),
    ImageError(String),
}

#[derive(Debug, Clone)]
pub struct MarkdownOptions {
    pub extract_images: bool,
    pub detect_tables: bool,
    pub text_direction: TextDirectionOption,
    pub validate: bool,
    pub api_provider: Option<String>,
    pub image_output_dir: Option<String>,
    pub include_page_numbers: bool,
    pub generate_metadata: bool,
    pub ocr_language: String,
}

impl Default for MarkdownOptions {
    fn default() -> (r: MarkdownOptions)
        ensures
            r.extract_images,
            r.detect_tables,
            r.text_direction == TextDirectionOption::Auto,
            !r.validate,
            r.api_provider is None,
            r.image_output_dir is None,
            r.include_page_numbers,
            r.generate_metadata,
            r.ocr_language@ == "ja"@,
    {
        MarkdownOptions {
            extract_images: true,
            detect_tables: true,
            text_direction: TextDirectionOption::Auto,
            validate: false,
            api_provider: None,
            image_output_dir: None,
            include_page_numbers: true,
            generate_metadata: true,
            ocr_language: String::from_str("ja"),
        }
    }
}

impl MarkdownOptions {
    pub fn builder() -> (r: MarkdownOptionsBuilder)
        ensures
            r.spec_options().extract_images,
            r.spec_options().detect_tables,
            r.spec_options().text_direction == TextDirectionOption::Auto,
            !r.spec_options().validate,
            r.spec_options().api_provider is None,
            r.spec_options().image_output_dir is None,
            r.spec_options().include_page_numbers,
            r.spec_options().generate_metadata,
            r.spec_options().ocr_language@ == "ja"@,
    {
        MarkdownOptionsBuilder { options: MarkdownOptions::default() }
    }
}

/// Builds `MarkdownOptions` from the defaults, one setting at a time.
#[derive(Debug)]
pub struct MarkdownOptionsBuilder {
    options: MarkdownOptions,
}

impl MarkdownOptionsBuilder {
    pub closed spec fn spec_options(&self) -> MarkdownOptions {
        self.options
    }

    pub fn extract_images(self, extract: bool) -> (r: MarkdownOptionsBuilder)
        ensures
            r.spec_options() == (MarkdownOptions { extract_images: extract, ..self.spec_options() }),
    {
        let mut b = self;
        b.options.extract_images = extract;
        b
    }

    pub fn detect_tables(self, detect: bool) -> (r: MarkdownOptionsBuilder)
        ensures
            r.spec_options() == (MarkdownOptions { detect_tables: detect, ..self.spec_options() }),
    {
        let mut b = self;
        b.options.detect_tables = detect;
        b
    }

    pub fn text_direction(self, direction: TextDirectionOption) -> (r: MarkdownOptionsBuilder)
        ensures
            r.spec_options() == (MarkdownOptions { text_direction: direction, ..self.spec_options() }),
    {
        let mut b = self;
        b.options.text_direction = direction;
        b
    }

    pub fn validate(self, validate: bool) -> (r: MarkdownOptionsBuilder)
        ensures
            r.spec_options() == (MarkdownOptions { validate, ..self.spec_options() }),
    {
        let mut b = self;
        b.options.validate = validate;
        b
    }

    pub fn api_provider(self, provider: &str) -> (r: MarkdownOptionsBuilder)
        ensures
            r.spec_options().api_provider is Some,
            r.spec_options().api_provider->0@ == provider@,
            r.spec_options() == (MarkdownOptions { api_provider: r.spec_options().api_provider, ..self.spec_options() }),
    {
        let mut b = self;
        b.options.api_provider = Some(provider.to_owned());
        b
    }

    pub fn api_provider_opt(self, provider: Option<String>) -> (r: MarkdownOptionsBuilder)
        ensures
            r.spec_options() == (MarkdownOptions { api_provider: provider, ..self.spec_options() }),
    {
        let mut b = self;
        b.options.api_provider = provider;
        b
    }

    pub fn image_output_dir(self, dir: &str) -> (r: MarkdownOptionsBuilder)
        ensures
            r.spec_options().image_output_dir is Some,
            r.spec_options().image_output_dir->0@ == dir@,
            r.spec_options() == (MarkdownOptions { image_output_dir: r.spec_options().image_output_dir, ..self.spec_options() }),
    {
        let mut b = self;
        b.options.image_output_dir = Some(dir.to_owned());
        b
    }

    pub fn include_page_numbers(self, enabled: bool) -> (r: MarkdownOptionsBuilder)
        ensures
            r.spec_options() == (MarkdownOptions { include_page_numbers: enabled, ..self.spec_options() }),
    {
        let mut b = self;
        b.options.include_page_numbers = enabled;
        b
    }

    pub fn generate_metadata(self, generate: bool) -> (r: MarkdownOptionsBuilder)
        ensures
            r.spec_options() == (MarkdownOptions { generate_metadata: generate, ..self.spec_options() }),
    {
        let mut b = self;
        b.options.generate_metadata = generate;
        b
    }

    pub fn ocr_language(self, language: &str) -> (r: MarkdownOptionsBuilder)
        ensures
            r.spec_options().ocr_language@ == language@,
            r.spec_options() == (MarkdownOptions { ocr_language: r.spec_options().ocr_language, ..self.spec_options() }),
    {
        let mut b = self;
        b.options.ocr_language = language.to_owned();
        b
    }

    pub fn build(self) -> (r: MarkdownOptions)
        ensures
            r == self.spec_options(),
    {
        self.options
    }
}

/// Converts scanned books to Markdown with the given options.
#[derive(Debug)]
pub struct MarkdownConverter {
    pub options: MarkdownOptions,
}

impl MarkdownConverter {
    pub fn new() -> (r: MarkdownConverter)
        ensures
            r.options.extract_images && r.options.detect_tables && !r.options.validate,
            r.options.ocr_language@ == "ja"@,
    {
        MarkdownConverter { options: MarkdownOptions::default() }
    }

    pub fn with_options(options: MarkdownOptions) -> (r: MarkdownConverter)
        ensures
            r.options == options,
    {
        MarkdownConverter { options }
    }
}

/// The writing direction of a page.
#[derive(Debug, Clone, Copy, PartialEq, Eq, Structural)]
pub enum TextDirection {
    Horizontal,
    Vertical,
}

impl Default for TextDirection {
    fn default() -> (r: TextDirection)
        ensures
            r == TextDirection::Horizontal,
    {
        TextDirection::Horizontal
    }
}

/// Tolerances, in pixels, for grouping blocks into columns and lines.
#[derive(Debug, Clone, Copy, PartialEq, Eq)]
pub struct ReadingOrderOptions {
    pub forced_direction: Option<TextDirection>,
    pub column_tolerance: u32,
    pub line_tolerance: u32,
}

impl Default for ReadingOrderOptions {
    fn default() -> (r: ReadingOrderOptions)
        ensures
            r == (ReadingOrderOptions { forced_direction: None, column_tolerance: 30, line_tolerance: 10 }),
    {
        ReadingOrderOptions { forced_direction: None, column_tolerance: 30, line_tolerance: 10 }
    }
}

/// Number of boxes taller than wide.
pub open spec fn tall_count(bs: Seq<BoundingBox>) -> int
    decreases bs.len(),
{
    if bs.len() == 0 { 0 } else { tall_count(bs.drop_last()) + if bs.last().height > bs.last().width { 1int } else { 0 } }
}

/// Orders text blocks for reading.
pub struct ReadingOrderSorter;

impl ReadingOrderSorter {
    /// Vertical when there are at least two blocks and the tall ones
    /// outnumber the others more than twice over.
    pub fn detect_direction(blocks: &[BoundingBox]) -> (r: TextDirection)
        ensures
            r == if blocks@.len() >= 2 && tall_count(blocks@) > 2 * (blocks@.len() - tall_count(blocks@)) {
                TextDirection::Vertical
            } else {
                TextDirection::Horizontal
            },
    {
        if blocks.len() < 2 {
            return TextDirection::Horizontal;
        }
        let mut tall: usize = 0;
        let mut i: usize = 0;
        while i < blocks.len()
            invariant
                i <= blocks@.len(),
                tall == tall_count(blocks@.take(i as int)),
                tall <= i,
            decreases blocks.len() - i,
        {
            proof {
                assert(blocks@.take(i as int + 1).drop_last() =~= blocks@.take(i as int));
            }
            if blocks[i].height > blocks[i].width {
                tall = tall + 1;
            }
            i = i + 1;
        }
        assert(blocks@.take(blocks@.len() as int) =~= blocks@);
        let wide = blocks.len() - tall;
        if (tall as u128) > 2 * (wide as u128) {
            TextDirection::Vertical
        } else {
            TextDirection::Horizontal
        }
    }
}

} // verus!
