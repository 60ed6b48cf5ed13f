//! Requests for images, and what they cost.

use crate::data::Cost;
use crate::text::{append_decimal, decimal};
use base64::Engine;
use vstd::prelude::*;
use vstd::string::*;

verus! {

/// The shape of an image.
#[derive(Debug, Clone, Copy, PartialEq, Eq, Structural)]
pub enum Dimensions {
    Wide,
    Tall,
    Square,
}

impl Dimensions {
    /// The size in pixels, width first.
    pub open spec fn size_text(self) -> Seq<char> {
        match self {
            Dimensions::Square => "1024x1024"@,
            Dimensions::Wide => "1792x1024"@,
            Dimensions::Tall => "1024x1792"@,
        }
    }

    /// The size in pixels as the image service names it.
    pub fn to_size(&self) -> (size: &'static str)
        ensures
            size@ == self.size_text(),
    {
        match self {
            Dimensions::Square => "1024x1024",
            Dimensions::Wide => "1792x1024",
            Dimensions::Tall => "1024x1792",
        }
    }
}

/// How vivid an image is to be.
#[derive(Debug, Clone, Copy, PartialEq, Eq, Structural)]
pub enum Style {
    Natural,
    Vivid,
}

impl Style {
    /// The style as the image service names it.
    pub open spec fn text(self) -> Seq<char> {
        match self {
            Style::Natural => "natural"@,
            Style::Vivid => "vivid"@,
        }
    }

    /// The style as the image service names it.
    pub fn to_str(&self) -> (name: &'static str)
        ensures
            name@ == self.text(),
    {
        match self {
            Style::Natural => "natural",
            Style::Vivid => "vivid",
        }
    }
}

/// How fine an image is to be.
#[derive(Debug, Clone, Copy, PartialEq, Eq, Structural)]
pub enum Quality {
    Standard,
    HD,
}

impl Quality {
    /// The quality as the image service names it.
    pub open spec fn text(self) -> Seq<char> {
        match self {
            Quality::Standard => "standard"@,
            Quality::HD => "hd"@,
        }
    }

    /// The quality as the image service names it.
    pub fn to_str(&self) -> (name: &'static str)
        ensures
            name@ == self.text(),
    {
        match self {
            Quality::Standard => "standard",
            Quality::HD => "hd",
        }
    }
}

/// The price of one image in cents: a square one costs less than a wide or
/// a tall one, a standard one less than a fine one.
pub open spec fn cents_each(dimensions: Dimensions, quality: Quality) -> nat {
    match (dimensions, quality) {
        (Dimensions::Square, Quality::Standard) => 4,
        (Dimensions::Square, Quality::HD) => 8,
        (_, Quality::Standard) => 8,
        (_, Quality::HD) => 12,
    }
}

/// A request for a number of images of one description.
#[derive(Debug, Clone)]
pub struct ImageRequest {
    pub description: String,
    pub num: u8,
    pub dimensions: Dimensions,
    pub style: Style,
    pub quality: Quality,
}

impl ImageRequest {
    /// What the request costs, in thousandths of a cent: the price of one
    /// image times their number.
    pub open spec fn spec_cost(&self) -> nat {
        cents_each(self.dimensions, self.quality) * self.num as nat * 1000
    }

    /// A request for `num` images of this description.
    pub fn new(
        description: String,
        num: u8,
        dimensions: Dimensions,
        style: Style,
        quality: Quality,
    ) -> (request: ImageRequest)
        ensures
            request.description == description,
            request.num == num,
            request.dimensions == dimensions,
            request.style == style,
            request.quality == quality,
    {
        ImageRequest { description, num, dimensions, style, quality }
    }

    /// What the request costs.
    pub fn cost(&self) -> (cost: Cost)
        ensures
            cost.millicents == self.spec_cost(),
            cost.millicents <= 3_060_000,
    {
        let base_cents: u64 = match (self.dimensions, self.quality) {
            (Dimensions::Square, Quality::Standard) => 4,
            (Dimensions::Square, Quality::HD) => 8,
            (_, Quality::Standard) => 8,
            (_, Quality::HD) => 12,
        };
        assert(base_cents * self.num <= 3060) by (nonlinear_arith)
            requires
                base_cents <= 12,
                self.num <= 255,
        ;
        Cost::cents(base_cents * self.num as u64)
    }

    /// How many images the request asks for.
    pub fn num_images(&self) -> (num: u8)
        ensures
            num == self.num,
    {
        self.num
    }
}

/// How many images a request asks for where it does not say.
pub const USUAL_IMAGES: u8 = 4;

/// No request may ask for more images than this.
pub const MOST_IMAGES: u8 = 10;

/// The answer to a request for more than `MOST_IMAGES` images.
pub open spec fn too_many_images() -> Seq<char> {
    "This mortal frame can't handle such treasures. Ten is the max at once, chum"@
}

/// The answer to a request for no image at all.
pub open spec fn no_images() -> Seq<char> {
    "Getting philosophical with us eh? Here's zero images for you:"@
}

/// The words that say that the images are being made.
pub open spec fn progress_text(num: u8) -> Seq<char> {
    if num == 1 {
        "Generating image..."@
    } else {
        "Generating "@ + decimal(num as nat) + " images..."@
    }
}

/// The words that say that the images are made, and how many of them failed
/// where any did.
pub open spec fn completion_text(failures: nat) -> Seq<char> {
    if failures > 0 {
        "Generated!"@ + " ("@ + decimal(failures) + " failed)"@
    } else {
        "Generated!"@
    }
}

/// The name of the file of an image: the prompt as the service revised it, or
/// `image` where it gave none, and `.png`.
pub open spec fn file_name_text(revised_prompt: Option<Seq<char>>) -> Seq<char> {
    match revised_prompt {
        Some(prompt) => prompt + ".png"@,
        None => "image"@ + ".png"@,
    }
}

/// Makes the request that a user asks for. What the user leaves out is
/// filled in: four images, square, vivid, of standard quality. A request for
/// more than ten images, or for none, is refused with the answer to give.
pub fn plan_request(
    description: String,
    num: Option<u8>,
    size: Option<Dimensions>,
    style: Option<Style>,
    quality: Option<Quality>,
) -> (planned: Result<ImageRequest, String>)
    ensures
        match planned {
            Ok(request) => {
                &&& request.description == description
                &&& request.num == num.unwrap_or(USUAL_IMAGES)
                &&& 1 <= request.num <= MOST_IMAGES
                &&& request.dimensions == size.unwrap_or(Dimensions::Square)
                &&& request.style == style.unwrap_or(Style::Vivid)
                &&& request.quality == quality.unwrap_or(Quality::Standard)
            },
            Err(answer) => if num.unwrap_or(USUAL_IMAGES) > MOST_IMAGES {
                answer@ == too_many_images()
            } else {
                num.unwrap_or(USUAL_IMAGES) == 0 && answer@ == no_images()
            },
        },
{
    let num = match num {
        Some(num) => num,
        None => USUAL_IMAGES,
    };
    if num > MOST_IMAGES {
        return Err(
            String::from_str(
                "This mortal frame can't handle such treasures. Ten is the max at once, chum",
            ),
        );
    }
    if num == 0 {
        return Err(
            String::from_str("Getting philosophical with us eh? Here's zero images for you:"),
        );
    }
    Ok(
        ImageRequest {
            description,
            num,
            dimensions: match size {
                Some(size) => size,
                None => Dimensions::Square,
            },
            style: match style {
                Some(style) => style,
                None => Style::Vivid,
            },
            quality: match quality {
                Some(quality) => quality,
                None => Quality::Standard,
            },
        },
    )
}

/// The words that say that the images are being made.
pub fn progress_note(num: u8) -> (note: String)
    ensures
        note@ == progress_text(num),
{
    if num == 1 {
        String::from_str("Generating image...")
    } else {
        let mut note = String::from_str("Generating ");
        append_decimal(&mut note, num as u64);
        note.append(" images...");
        note
    }
}

/// The words that say that the images are made.
pub fn completion_note(failures: usize) -> (note: String)
    ensures
        note@ == completion_text(failures as nat),
{
    let mut note = String::from_str("Generated!");
    if failures > 0 {
        note.append(" (");
        append_decimal(&mut note, failures as u64);
        note.append(" failed)");
    }
    note
}

/// The name of the file of an image.
pub fn file_name(revised_prompt: Option<String>) -> (name: String)
    ensures
        name@ == file_name_text(
            match revised_prompt {
                Some(prompt) => Some(prompt@),
                None => None,
            },
        ),
{
    let mut name = match revised_prompt {
        Some(prompt) => prompt,
        None => String::from_str("image"),
    };
    name.append(".png");
    name
}

/// The error of the `base64` crate's decoding. Nothing is known of what it
/// holds.
#[verifier::external_type_specification]
#[verifier::external_body]
pub struct ExDecodeError(base64::DecodeError);

/// The bytes that a text stands for in base64, with the standard alphabet and
/// with padding; `None` where the text is not base64. This names what
/// `Engine::decode` of the `base64` crate gives on the engine
/// `general_purpose::STANDARD`.
pub uninterp spec fn standard_base64(text: Seq<char>) -> Option<Seq<u8>>;

/// Decodes base64. The body calls `Engine::decode` of the `base64` crate on
/// the engine `general_purpose::STANDARD`. It is taken on trust that the call
/// depends on the text alone: what comes back is what `standard_base64` names.
#[verifier::external_body]
fn decode_standard(text: &str) -> (decoded: Result<Vec<u8>, base64::DecodeError>)
    ensures
        decoded matches Ok(bytes) ==> standard_base64(text@) == Some(bytes@),
        decoded is Err ==> standard_base64(text@) is None,
{
    base64::engine::general_purpose::STANDARD.decode(text)
}

/// The complaint about an image that is not base64.
pub open spec fn not_base64() -> Seq<char> {
    "failed to decode base64 image from OpenAI"@
}

/// An image as the service sent it.
pub struct Image {
    pub revised_prompt: Option<String>,
    pub bytes: Vec<u8>,
}

impl Image {
    /// The image with these bytes, where the decoding gave any; the
    /// complaint where it gave none.
    pub fn from_decoded(revised_prompt: Option<String>, decoded: Option<Vec<u8>>) -> (image: Result<
        Image,
        String,
    >)
        ensures
            match decoded {
                Some(bytes) => image matches Ok(made) && made.bytes == bytes
                    && made.revised_prompt == revised_prompt,
                None => image matches Err(complaint) && complaint@ == not_base64(),
            },
    {
        match decoded {
            Some(bytes) => Ok(Image { revised_prompt, bytes }),
            None => Err(String::from_str("failed to decode base64 image from OpenAI")),
        }
    }

    /// The image that the service sent in base64; the complaint where what
    /// it sent is not base64.
    pub fn from_open_ai(revised_prompt: Option<String>, b64_json: &str) -> (image: Result<
        Image,
        String,
    >)
        ensures
            match standard_base64(b64_json@) {
                Some(bytes) => image matches Ok(made) && made.bytes@ == bytes
                    && made.revised_prompt == revised_prompt,
                None => image matches Err(complaint) && complaint@ == not_base64(),
            },
    {
        let decoded = match decode_standard(b64_json) {
            Ok(bytes) => Some(bytes),
            Err(_) => None,
        };
        Image::from_decoded(revised_prompt, decoded)
    }
}

} // verus!
