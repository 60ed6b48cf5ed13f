use hypnos::dalle::{Dimensions, ImageRequest, Quality, Style};

#[test]
fn test_dimensions_to_size() {
    assert_eq!(Dimensions::Square.to_size(), "1024x1024");
    assert_eq!(Dimensions::Wide.to_size(), "1792x1024");
    assert_eq!(Dimensions::Tall.to_size(), "1024x1792");
}

#[test]
fn test_quality_to_str() {
    assert_eq!(Quality::Standard.to_str(), "standard");
    assert_eq!(Quality::HD.to_str(), "hd");
}

#[test]
fn test_style_to_str() {
    assert_eq!(Style::Natural.to_str(), "natural");
    assert_eq!(Style::Vivid.to_str(), "vivid");
}

#[test]
fn test_image_request_cost() {
    let req = ImageRequest {
        description: "desc".to_string(),
        num: 2,
        dimensions: Dimensions::Square,
        style: Style::Vivid,
        quality: Quality::Standard,
    };
    let cost = req.cost();
    assert_eq!(cost.millicents, 8000);
    assert_eq!(req.num_images(), 2);
}

#[test]
fn request_costs_by_size_and_quality() {
    let cost = |dimensions, quality, num| {
        ImageRequest::new("x".to_string(), num, dimensions, Style::Vivid, quality).cost().millicents
    };
    assert_eq!(cost(Dimensions::Square, Quality::Standard, 1), 4000);
    assert_eq!(cost(Dimensions::Square, Quality::HD, 1), 8000);
    assert_eq!(cost(Dimensions::Wide, Quality::Standard, 1), 8000);
    assert_eq!(cost(Dimensions::Tall, Quality::Standard, 1), 8000);
    assert_eq!(cost(Dimensions::Wide, Quality::HD, 1), 12000);
    assert_eq!(cost(Dimensions::Tall, Quality::HD, 1), 12000);
    assert_eq!(cost(Dimensions::Tall, Quality::HD, 0), 0);
    assert_eq!(cost(Dimensions::Tall, Quality::HD, 255), 3_060_000);
    assert_eq!(cost(Dimensions::Square, Quality::Standard, 10), 40_000);
}
