use roobu::sites::common::is_blank_or_html;
use roobu::sites::kemono::{listing_url, next_page_offset};
use roobu::sites::validate::{edges_accepted, validate_downloaded_image};
use roobu::sites::aibooru;
use roobu::sites::civitai::{
    posts_from_items, rewrite_cached_thumbnail_to_original_url, rewrite_to_cached_thumbnail_url,
    RawImage, RawMeta, RawResource,
};
use roobu::sites::common::JsonScalar;
use roobu::sites::e621;
use roobu::sites::e6ai;
use roobu::sites::gelbooru;
use roobu::sites::kemono::{build_media_url, parse_id, strip_html_tags, synthesize_tags};
use roobu::sites::kemono;
use roobu::sites::konachan;
use roobu::sites::yandere;
use roobu::sites::{build_client, Post, SiteCredentials, SiteKind};

fn no_credentials() -> SiteCredentials {
    SiteCredentials {
        rule34_api_key: None,
        rule34_user_id: None,
        e621_login: None,
        e621_api_key: None,
        gelbooru_api_key: None,
        gelbooru_user_id: None,
        kemono_session: None,
        kemono_base_url: None,
    }
}

fn e621_tags(general: &[&str], artist: &[&str]) -> e621::RawTags {
    e621::RawTags {
        general: general.iter().map(|s| s.to_string()).collect(),
        artist: artist.iter().map(|s| s.to_string()).collect(),
        contributor: vec![],
        copyright: vec![],
        character: vec![],
        species: vec![],
        invalid: vec![],
        meta: vec![],
        lore: vec![],
    }
}

#[test]
fn into_post_prefers_preview_file_url() {
    let raw = aibooru::RawPost {
        id: 123,
        tag_string: "test_tag".to_string(),
        preview_file_url: Some("https://cdn.test/preview.jpg".to_string()),
        large_file_url: Some("https://cdn.test/large.jpg".to_string()),
        file_url: Some("https://cdn.test/file.jpg".to_string()),
        image_width: 1920,
        image_height: 1080,
        rating: "s".to_string(),
    };
    let post = raw.into_post();
    assert_eq!(post.thumbnail_url, "https://cdn.test/preview.jpg");
    assert_eq!(post.tags, "test_tag");
    assert_eq!(post.width, 1920);
    assert_eq!(post.height, 1080);
}

#[test]
fn aibooru_into_post_falls_back_to_file_url() {
    let raw = aibooru::RawPost {
        id: 321,
        tag_string: String::new(),
        preview_file_url: None,
        large_file_url: None,
        file_url: Some("https://cdn.test/file-only.jpg".to_string()),
        image_width: 100,
        image_height: 200,
        rating: "q".to_string(),
    };
    let post = raw.into_post();
    assert_eq!(post.thumbnail_url, "https://cdn.test/file-only.jpg");
}

#[test]
fn into_post_builds_tags_and_maps_soft_rating() {
    let raw = RawImage {
        id: 125673839,
        url: Some("https://image.civitai.com/xG1nkqKTMzGDvpLrqFT7WA/706a7ed9-bbac-4ade-89e1-a40694524396/original=true/706a7ed9-bbac-4ade-89e1-a40694524396.jpeg".to_string()),
        media_type: None,
        width: Some(840),
        height: Some(1080),
        nsfw_level: Some("Soft".to_string()),
        nsfw: false,
        username: Some("tobycortes".to_string()),
        base_model: Some("Illustrious".to_string()),
        meta: Some(RawMeta {
            prompt: Some("1girl\nbook".to_string()),
            negative_prompt: Some("low quality".to_string()),
            model: Some("n4mik4_IL_003.fp16".to_string()),
            sampler: Some("LCM".to_string()),
            resources: Some(vec![
                RawResource { name: Some("Cut3_style".to_string()) },
                RawResource { name: Some("DetailedEyes_V3".to_string()) },
            ]),
        }),
    };
    let post = raw.into_post();
    assert_eq!(post.rating, "q");
    assert_eq!(
        post.thumbnail_url,
        "https://image-b2.civitai.com/file/civitai-media-cache/706a7ed9-bbac-4ade-89e1-a40694524396/450x%3Cauto%3E_so"
    );
    assert_eq!(post.width, 840);
    assert_eq!(post.height, 1080);
    assert!(post.tags.contains("tobycortes"));
    assert!(post.tags.contains("Illustrious"));
    assert!(post.tags.contains("n4mik4_IL_003.fp16"));
    assert!(post.tags.contains("LCM"));
    assert!(post.tags.contains("Cut3_style"));
    assert!(post.tags.contains("DetailedEyes_V3"));
    assert!(post.tags.contains("1girl book"));
}

#[test]
fn into_post_falls_back_to_nsfw_boolean_when_level_unknown() {
    let raw = RawImage {
        id: 77,
        url: None,
        media_type: None,
        width: Some(0),
        height: Some(0),
        nsfw_level: Some("Unknown".to_string()),
        nsfw: true,
        username: Some(String::new()),
        base_model: Some(String::new()),
        meta: None,
    };
    let post = raw.into_post();
    assert_eq!(post.rating, "e");
    assert_eq!(post.thumbnail_url, "https://civitai.com/images/77");
}

#[test]
fn into_post_accepts_null_meta_and_nullable_strings() {
    let raw = RawImage {
        id: 88,
        url: Some("https://image.civitai.com/example.png".to_string()),
        media_type: None,
        width: Some(1024),
        height: Some(1024),
        nsfw_level: None,
        nsfw: false,
        username: None,
        base_model: None,
        meta: None,
    };
    let post = raw.into_post();
    assert_eq!(post.thumbnail_url, "https://image.civitai.com/example.png");
    assert_eq!(post.rating, "s");
    assert_eq!(post.tags, "");
}

#[test]
fn into_post_accepts_null_dimensions_and_null_resources() {
    let raw = RawImage {
        id: 99,
        url: Some("https://image.civitai.com/example2.png".to_string()),
        media_type: None,
        width: None,
        height: None,
        nsfw_level: Some("None".to_string()),
        nsfw: false,
        username: Some("artist".to_string()),
        base_model: Some("model".to_string()),
        meta: Some(RawMeta {
            prompt: None,
            negative_prompt: None,
            model: None,
            sampler: None,
            resources: None,
        }),
    };
    let post = raw.into_post();
    assert_eq!(post.width, 0);
    assert_eq!(post.height, 0);
    assert!(post.tags.contains("artist"));
    assert!(post.tags.contains("model"));
}

#[test]
fn parse_posts_skips_video_items() {
    let items = vec![
        RawImage {
            id: 10,
            url: Some("https://image.civitai.com/example.jpeg".to_string()),
            media_type: Some("image".to_string()),
            width: None,
            height: None,
            nsfw_level: Some("Soft".to_string()),
            nsfw: true,
            username: None,
            base_model: None,
            meta: None,
        },
        RawImage {
            id: 11,
            url: Some("https://image.civitai.com/example.mp4".to_string()),
            media_type: Some("video".to_string()),
            width: None,
            height: None,
            nsfw_level: Some("X".to_string()),
            nsfw: true,
            username: None,
            base_model: None,
            meta: None,
        },
    ];
    let posts = posts_from_items(items, 0);
    assert_eq!(posts.len(), 1);
    assert_eq!(posts[0].id, 10);
}

#[test]
fn rewrite_to_cached_thumbnail_handles_original_true_path() {
    let original = "https://image.civitai.com/xG1nkqKTMzGDvpLrqFT7WA/98782cee-b438-4f0f-916c-edb849960624/original=true/98782cee-b438-4f0f-916c-edb849960624.jpeg";
    let rewritten = rewrite_to_cached_thumbnail_url(original);
    assert_eq!(
        rewritten.as_deref(),
        Some("https://image-b2.civitai.com/file/civitai-media-cache/98782cee-b438-4f0f-916c-edb849960624/450x%3Cauto%3E_so")
    );
}

#[test]
fn rewrite_to_cached_thumbnail_handles_original_path() {
    let original = "https://image-b2.civitai.com/file/civitai-media-cache/98782cee-b438-4f0f-916c-edb849960624/original";
    let rewritten = rewrite_to_cached_thumbnail_url(original);
    assert_eq!(
        rewritten.as_deref(),
        Some("https://image-b2.civitai.com/file/civitai-media-cache/98782cee-b438-4f0f-916c-edb849960624/450x%3Cauto%3E_so")
    );
}

#[test]
fn rewrite_to_cached_thumbnail_ignores_non_original_urls() {
    let rewritten = rewrite_to_cached_thumbnail_url("https://image.civitai.com/example.png");
    assert!(rewritten.is_none());
}

#[test]
fn rewrite_cached_thumbnail_to_original_handles_encoded_variant() {
    let thumb = "https://image-b2.civitai.com/file/civitai-media-cache/98782cee-b438-4f0f-916c-edb849960624/450x%3Cauto%3E_so";
    let rewritten = rewrite_cached_thumbnail_to_original_url(thumb);
    assert_eq!(
        rewritten.as_deref(),
        Some("https://image-b2.civitai.com/file/civitai-media-cache/98782cee-b438-4f0f-916c-edb849960624/original")
    );
}

#[test]
fn rewrite_cached_thumbnail_to_original_handles_decoded_variant() {
    let thumb = "https://image-b2.civitai.com/file/civitai-media-cache/98782cee-b438-4f0f-916c-edb849960624/450x<auto>_so";
    let rewritten = rewrite_cached_thumbnail_to_original_url(thumb);
    assert_eq!(
        rewritten.as_deref(),
        Some("https://image-b2.civitai.com/file/civitai-media-cache/98782cee-b438-4f0f-916c-edb849960624/original")
    );
}

#[test]
fn rewrite_cached_thumbnail_to_original_ignores_other_variants() {
    let thumb = "https://image-b2.civitai.com/file/civitai-media-cache/98782cee-b438-4f0f-916c-edb849960624/original";
    let rewritten = rewrite_cached_thumbnail_to_original_url(thumb);
    assert!(rewritten.is_none());
}

#[test]
fn e621_into_post_falls_back_to_sample_url() {
    let raw = e621::RawPost {
        id: 42,
        tags: e621_tags(&["blue_eyes"], &["someone"]),
        preview: e621::RawPreview { url: None },
        sample: e621::RawSample { url: Some("https://sample.test/sample.jpg".to_string()) },
        file: e621::RawFile { width: 640, height: 480, url: Some("https://file.test/full.jpg".to_string()) },
        rating: "s".to_string(),
    };
    let post = raw.into_post();
    assert_eq!(post.thumbnail_url, "https://sample.test/sample.jpg");
    assert_eq!(post.tags, "blue_eyes someone");
    assert_eq!(post.width, 640);
    assert_eq!(post.height, 480);
}

#[test]
fn e621_into_post_falls_back_to_file_url() {
    let raw = e621::RawPost {
        id: 55,
        tags: e621_tags(&[], &[]),
        preview: e621::RawPreview { url: None },
        sample: e621::RawSample { url: None },
        file: e621::RawFile { width: 320, height: 320, url: Some("https://file.test/only.jpg".to_string()) },
        rating: "e".to_string(),
    };
    let post = raw.into_post();
    assert_eq!(post.thumbnail_url, "https://file.test/only.jpg");
    assert_eq!(post.tags, "");
}

#[test]
fn constructor_rejects_partial_credentials() {
    let result = e621::E621Client::new(Some("user".to_string()), None);
    assert!(result.is_err());
    let message = result.err().expect("constructor must reject partial credentials").message();
    assert!(message.contains("both login and api key"));
}

#[test]
fn e6ai_into_post_falls_back_to_sample_url() {
    let raw = e6ai::RawPost {
        id: 42,
        tags: e621_tags(&["blue_eyes"], &["someone"]),
        preview: e621::RawPreview { url: None },
        sample: e621::RawSample { url: Some("https://sample.test/sample.jpg".to_string()) },
        file: e621::RawFile { width: 640, height: 480, url: Some("https://file.test/full.jpg".to_string()) },
        rating: "s".to_string(),
    };
    let post = raw.into_post();
    assert_eq!(post.thumbnail_url, "https://sample.test/sample.jpg");
    assert_eq!(post.tags, "blue_eyes someone");
    assert_eq!(post.width, 640);
    assert_eq!(post.height, 480);
}

#[test]
fn constructor_builds_without_credentials() {
    let result = build_client(SiteKind::E6Ai, no_credentials());
    assert!(result.is_ok());
}

#[test]
fn parses_wrapped_gelbooru_response() {
    let raw = gelbooru::RawResponse::Wrapped {
        post: vec![gelbooru::RawPost {
            id: JsonScalar::Text("123".to_string()),
            tags: "foo bar".to_string(),
            preview_url: "https://img.test/preview.jpg".to_string(),
            width: JsonScalar::Text("1200".to_string()),
            height: JsonScalar::Text("800".to_string()),
            rating: "general".to_string(),
        }],
    };
    let posts = raw.into_posts();
    assert_eq!(posts.len(), 1);
}

#[test]
fn into_post_handles_string_dimensions() {
    let raw = gelbooru::RawPost {
        id: JsonScalar::Text("456".to_string()),
        tags: "alpha beta".to_string(),
        preview_url: "https://img.test/456.jpg".to_string(),
        width: JsonScalar::Text("640".to_string()),
        height: JsonScalar::Text("480".to_string()),
        rating: "safe".to_string(),
    };
    let post = raw.into_post().expect("post should convert");
    assert_eq!(post.id, 456);
    assert_eq!(post.width, 640);
    assert_eq!(post.height, 480);
    assert_eq!(post.thumbnail_url, "https://img.test/456.jpg");
}

#[test]
fn parse_id_handles_string_and_number() {
    assert_eq!(parse_id(&JsonScalar::Text("123".to_string())), Some(123));
    assert_eq!(parse_id(&JsonScalar::Number(Some(456))), Some(456));
    assert_eq!(parse_id(&JsonScalar::Text("abc".to_string())), None);
}

#[test]
fn media_url_uses_data_prefix() {
    assert_eq!(build_media_url("https://kemono.cr", "/ab/cd/file.jpg"), "https://kemono.cr/data/ab/cd/file.jpg");
    assert_eq!(build_media_url("https://kemono.cr/", "/data/ab/cd/file.jpg"), "https://kemono.cr/data/ab/cd/file.jpg");
    assert_eq!(build_media_url("https://kemono.cr", "data/ab/cd/file.jpg"), "https://kemono.cr/data/ab/cd/file.jpg");
}

#[test]
fn strip_html_and_synthesize_tags() {
    assert_eq!(strip_html_tags("<p>Hello</p> world"), "Hello world");
    assert_eq!(synthesize_tags("Title", "<p>Description</p>", "patreon"), "Title Description patreon");
}

#[test]
fn picks_first_image_attachment_when_non_images_come_first() {
    let raw = kemono::RawPost {
        id: JsonScalar::Text("123".to_string()),
        title: "Example".to_string(),
        substring: String::new(),
        service: "patreon".to_string(),
        file: kemono::RawFile { path: None, thumbnail: None },
        attachments: vec![
            kemono::RawAttachment { path: Some("/00/00/archive.zip".to_string()) },
            kemono::RawAttachment { path: Some("/11/11/image.png".to_string()) },
        ],
    };
    let post = raw.into_post("https://kemono.cr").expect("post should be convertible");
    assert_eq!(post.thumbnail_url, "https://kemono.cr/data/11/11/image.png");
}

#[test]
fn into_post_prefers_preview_then_sample() {
    let raw = konachan::RawPost {
        id: 999,
        tags: "foo bar".to_string(),
        preview_url: None,
        sample_url: Some("https://konachan.com/sample.jpg".to_string()),
        jpeg_url: Some("https://konachan.com/jpeg.jpg".to_string()),
        file_url: Some("https://konachan.com/file.png".to_string()),
        width: 1920,
        height: 1080,
        rating: "s".to_string(),
    };
    let post = raw.into_post();
    assert_eq!(post.thumbnail_url, "https://konachan.com/sample.jpg");
    assert_eq!(post.tags, "foo bar");
}

#[test]
fn into_post_falls_back_to_jpeg_url() {
    let raw = yandere::RawPost {
        id: 404,
        tags: "foo".to_string(),
        preview_url: None,
        sample_url: None,
        jpeg_url: Some("https://yande.re/jpeg.jpg".to_string()),
        file_url: Some("https://yande.re/file.png".to_string()),
        width: 1200,
        height: 800,
        rating: "q".to_string(),
    };
    let post = raw.into_post();
    assert_eq!(post.thumbnail_url, "https://yande.re/jpeg.jpg");
}

fn make_post(id: u64, site: &'static str, site_namespace: u64) -> Post {
    Post {
        id,
        tags: String::new(),
        thumbnail_url: String::new(),
        direct_image_url: None,
        width: 0,
        height: 0,
        rating: String::new(),
        site,
        site_namespace,
        canonical_post_url: None,
    }
}

#[test]
fn post_url_is_site_specific() {
    assert_eq!(make_post(123, "rule34", 1).post_url(), "https://rule34.xxx/index.php?page=post&s=view&id=123");
    assert_eq!(make_post(456, "e621", 2).post_url(), "https://e621.net/posts/456");
    assert_eq!(make_post(789, "safebooru", 3).post_url(), "https://safebooru.org/index.php?page=post&s=view&id=789");
    assert_eq!(make_post(321, "xbooru", 6).post_url(), "https://xbooru.com/index.php?page=post&s=view&id=321");
    assert_eq!(make_post(654, "kemono", 7).post_url(), "https://kemono.cr/posts/654");
    assert_eq!(make_post(777, "aibooru", 8).post_url(), "https://aibooru.online/posts/777");
    assert_eq!(make_post(888, "danbooru", 5).post_url(), "https://danbooru.donmai.us/posts/888");
    assert_eq!(make_post(333, "civitai", 12).post_url(), "https://civitai.com/images/333");
    assert_eq!(make_post(999, "e6ai", 9).post_url(), "https://e6ai.net/posts/999");
    assert_eq!(make_post(444, "gelbooru", 4).post_url(), "https://gelbooru.com/index.php?page=post&s=view&id=444");
    assert_eq!(make_post(111, "konachan", 10).post_url(), "https://konachan.com/post/show/111");
    assert_eq!(make_post(222, "yandere", 11).post_url(), "https://yande.re/post/show/222");
}

fn png_bytes(w: u32, h: u32) -> Vec<u8> {
    let img = image::RgbImage::from_fn(w, h, |x, y| image::Rgb([(x * 7 + y * 13) as u8, (x * y) as u8, (x ^ y) as u8]));
    let mut out = std::io::Cursor::new(Vec::new());
    image::DynamicImage::ImageRgb8(img).write_to(&mut out, image::ImageFormat::Png).expect("png encodes");
    out.into_inner()
}

#[test]
fn downloaded_images_are_checked_for_size_and_edges() {
    let good = png_bytes(64, 48);
    assert!(good.len() >= 500);
    let img = validate_downloaded_image(1, &good).expect("a 64x48 image is kept");
    assert_eq!((img.width(), img.height()), (64, 48));
    let thin = png_bytes(200, 20);
    assert!(thin.len() >= 500);
    assert!(validate_downloaded_image(2, &thin).is_none());
    assert!(validate_downloaded_image(3, &[0u8; 100]).is_none());
    assert!(validate_downloaded_image(4, &vec![7u8; 600]).is_none());
}

#[test]
fn decoded_edges_must_reach_the_minimum() {
    assert!(edges_accepted(32, 32));
    assert!(edges_accepted(1024, 768));
    assert!(!edges_accepted(31, 500));
    assert!(!edges_accepted(500, 31));
    assert!(!edges_accepted(0, 0));
}

#[test]
fn blank_or_html_bodies_hold_no_posts() {
    assert!(is_blank_or_html(""));
    assert!(is_blank_or_html("<!DOCTYPE html><html></html>"));
    assert!(!is_blank_or_html("[]"));
    assert!(!is_blank_or_html(" <html>"));
    assert!(!is_blank_or_html("{\"posts\": []}"));
}

#[test]
fn kemono_listing_pages_stop_on_empty_page_or_page_limit() {
    assert_eq!(next_page_offset(0, 0), Some(0));
    assert_eq!(next_page_offset(1, 50), Some(50));
    assert_eq!(next_page_offset(5, 12), Some(250));
    assert_eq!(next_page_offset(6, 50), None);
    assert_eq!(next_page_offset(2, 0), None);
    assert_eq!(listing_url("https://kemono.cr//", 100), "https://kemono.cr/api/v1/posts?o=100");
    assert_eq!(listing_url("https://kemono.cr", 0), "https://kemono.cr/api/v1/posts?o=0");
}
