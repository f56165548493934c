use std::collections::hash_map::DefaultHasher;
use std::hash::{Hash, Hasher};
use iiif_core::codec::CodecError;
use iiif_core::encode::EncodeError;
use iiif_core::eval::EvalError;
use iiif_core::grammar::Format;
use iiif_core::ident::Identifier;
use iiif_core::info::{Info, ImageDescription, Limits, SizeEntry, TileSet, CONTEXT};
use iiif_core::metrics::{Family, Metrics};
use iiif_core::pipeline::PipelineError;
use iiif_core::route::{
    base_uri, canonical_link, codec_failure, decode_gauges, document_id, error_body, etag_for,
    etag_text, if_none_match_hits, image_failure, info_content_type, info_location,
    source_failure, ImageFailure, Route, Version, LD_JSON,
};
use iiif_core::source::{check_range, object_key, parse_s3_url, LocalRoot, SourceError};
use iiif_core::health::{judge_health, judge_text};

#[test]
fn routes_follow_the_grammar() {
    assert_eq!(Route::of("/healthz"), Route::Health);
    assert_eq!(Route::of("/metrics"), Route::Metrics);
    assert_eq!(
        Route::of("/iiif/3/abc"),
        Route::BaseRedirect { version: Version::V3, identifier: "abc".to_string() }
    );
    assert_eq!(
        Route::of("/iiif/2/abc/info.json"),
        Route::InfoJson { version: Version::V2, identifier: "abc".to_string() }
    );
    assert_eq!(
        Route::of("/iiif/3/a%2Fb/full/max/0/default.jpg"),
        Route::Image {
            version: Version::V3,
            identifier: "a%2Fb".to_string(),
            rest: "full/max/0/default.jpg".to_string(),
        }
    );
    assert_eq!(Route::of("/iiif/3/a/b/full/max/0/default.jpg"), Route::Unrouted);
    assert_eq!(Route::of("/iiif/3/"), Route::Unrouted);
    assert_eq!(Route::of("/iiif/4/abc"), Route::Unrouted);
    assert_eq!(Route::of("/favicon.ico"), Route::Unrouted);
}

#[test]
fn etags_and_revalidation() {
    assert_eq!(etag_text(0x1f, u64::MAX), "\"000000000000001fffffffffffffffff\"");
    let tag = etag_for("a.tif", (1, 2), "full/max/0/default.jpg");
    assert_eq!(tag.len(), 34);
    assert_eq!(tag, etag_for("a.tif", (1, 2), "full/max/0/default.jpg"));
    assert_ne!(tag, etag_for("a.tif", (1, 3), "full/max/0/default.jpg"));
    assert!(if_none_match_hits("*", &tag));
    assert!(if_none_match_hits(&tag, &tag));
    assert!(if_none_match_hits(&format!("\"x\", W/{tag} "), &tag));
    assert!(!if_none_match_hits("\"x\", \"y\"", &tag));
    assert!(!if_none_match_hits("", &tag));
}

#[test]
fn etag_halves_hash_the_request_identity() {
    let identifier = "a.tif";
    let version: (u64, u64) = (1_700_000_000, 52_431);
    let canonical = "full/max/0/default.jpg";
    let mut halves = [0_u64; 2];
    for (domain, half) in halves.iter_mut().enumerate() {
        let mut hasher = DefaultHasher::new();
        domain.hash(&mut hasher);
        identifier.hash(&mut hasher);
        version.hash(&mut hasher);
        canonical.hash(&mut hasher);
        "0.2.1".hash(&mut hasher);
        *half = hasher.finish();
    }
    let expected = format!("\"{:016x}{:016x}\"", halves[0], halves[1]);
    assert_eq!(etag_for(identifier, version, canonical), expected);
    assert_ne!(etag_for(identifier, version, "full/max/0/gray.jpg"), expected);
}

#[test]
fn failures_map_to_statuses() {
    assert_eq!(source_failure(&SourceError::NotFound), (404, "unknown identifier"));
    let (status, msg) = codec_failure(&CodecError::LimitExceeded("too big".to_string()));
    assert_eq!((status, msg.as_str()), (403, "limit exceeded: too big"));
    let (status, _) = codec_failure(&CodecError::Corrupt("x".to_string()));
    assert_eq!(status, 500);
    let (status, msg) = image_failure(&ImageFailure::Eval(EvalError::BelowOnePixel));
    assert_eq!((status, msg.as_str()), (400, "scaled size is below one pixel"));
    let dims = EncodeError::DimensionsBeyondFormat { format: Format::Jpg, width: 1, height: 2 };
    let (status, msg) = image_failure(&ImageFailure::Pipeline(PipelineError::Encode(dims)));
    assert_eq!((status, msg.as_str()), (400, "output too large for this format"));
    let (status, msg) = image_failure(&ImageFailure::Pipeline(PipelineError::Resize("r".to_string())));
    assert_eq!((status, msg.as_str()), (500, "resample failure: r"));
    assert_eq!(error_body("gone"), "gone\n");
}

#[test]
fn links_and_negotiation() {
    assert_eq!(info_content_type(Version::V3, "application/ld+json"), LD_JSON);
    assert_eq!(info_content_type(Version::V3, "text/html"), "application/json");
    assert_eq!(base_uri(None, Some("example.org")), "http://example.org");
    assert_eq!(base_uri(None, None), "http://localhost");
    assert_eq!(base_uri(Some("https://x/y"), Some("ignored")), "https://x/y");
    assert_eq!(info_location(Version::V2, "a%2Fb"), "/iiif/2/a%2Fb/info.json");
    assert_eq!(document_id("https://x", Version::V3, "id"), "https://x/iiif/3/id");
    assert_eq!(
        canonical_link("https://x", Version::V3, "id", "full/max/0/default.jpg"),
        "<https://x/iiif/3/id/full/max/0/default.jpg>;rel=\"canonical\", <http://iiif.io/api/image/3/level2.json>;rel=\"profile\""
    );
    assert_eq!(decode_gauges(4, 12, 1, 5), (3, 4));
    assert_eq!(decode_gauges(4, 12, 9, 20), (0, 0));
}

#[test]
fn sources_resolve_inside_their_root() {
    let root = LocalRoot::new("/srv/images");
    let id = Identifier::decode("a%2Fb.tif").unwrap();
    assert_eq!(root.join(&id), "/srv/images/a/b.tif");
    assert!(root.admits("/srv/images/a/b.tif"));
    assert!(!root.admits("/srv/imagesevil/b.tif"));
    assert!(!root.admits("/srv"));
    assert!(LocalRoot::new("/").admits("/anything"));
    assert_eq!(LocalRoot::new("/").join(&id), "/a/b.tif");
    assert_eq!(parse_s3_url("s3://bucket/pre/fix//").unwrap(), ("bucket".to_string(), "pre/fix".to_string()));
    assert_eq!(parse_s3_url("s3://bucket").unwrap(), ("bucket".to_string(), String::new()));
    assert_eq!(parse_s3_url("s3:///x").unwrap_err(), "s3 URL has no bucket");
    assert_eq!(parse_s3_url("http://x").unwrap_err(), "not an s3:// URL: http://x");
    assert_eq!(object_key("pre", &id), "pre/a/b.tif");
    assert_eq!(object_key("", &id), "a/b.tif");
    assert_eq!(check_range(10, 5, 15).unwrap(), 5);
    let err = check_range(10, 6, 15).unwrap_err();
    assert_eq!(err.to_string(), "range 10+6 out of bounds for source of 15 bytes");
    assert_eq!(SourceError::NotFound.to_string(), "source not found");
}

#[test]
fn metrics_render_the_frozen_set() {
    let mut m = Metrics::new();
    m.observe(Family::Image, 200, 3_000_000);
    m.observe(Family::Info, 404, 7_000_000);
    m.observe(Family::Other, 503, 20_000_000_000);
    let text = m.render(2, 1);
    assert!(text.starts_with("# HELP iiif_build_info "));
    assert!(text.contains("iiif_build_info{version=\"0.2.1\",revision=\"unknown\"} 1\n"));
    assert!(text.contains("iiif_requests_total{family=\"info\"} 1\n"));
    assert!(text.contains("iiif_requests_total{family=\"image\"} 1\n"));
    assert!(text.contains("iiif_responses_total{class=\"2xx\"} 1\n"));
    assert!(text.contains("iiif_responses_total{class=\"4xx\"} 1\n"));
    assert!(text.contains("iiif_responses_total{class=\"5xx\"} 1\n"));
    assert!(text.contains("iiif_overload_total 1\n"));
    assert!(text.contains("iiif_request_duration_seconds_bucket{le=\"0.005\"} 1\n"));
    assert!(text.contains("iiif_request_duration_seconds_bucket{le=\"0.01\"} 2\n"));
    assert!(text.contains("iiif_request_duration_seconds_bucket{le=\"10\"} 2\n"));
    assert!(text.contains("iiif_request_duration_seconds_bucket{le=\"+Inf\"} 3\n"));
    assert!(text.contains("iiif_request_duration_seconds_sum 20.010000\n"));
    assert!(text.contains("iiif_request_duration_seconds_count 3\n"));
    assert!(text.ends_with("iiif_decode_queued 1\n"));
    assert!(text.contains("iiif_decode_in_flight 2\n"));
}

#[test]
fn info_document_carries_the_description() {
    let description = ImageDescription {
        width: 1024,
        height: 768,
        tiles: vec![TileSet { width: 256, height: None, scale_factors: vec![1, 2, 4] }],
        sizes: vec![SizeEntry { width: 1024, height: 768 }],
    };
    let limits = Limits::new(4000, 4000, 16_000_000);
    let info = Info::new("https://x/iiif/3/a".to_string(), &description, limits);
    assert_eq!(info.context, CONTEXT);
    assert_eq!(info.type_, "ImageService3");
    assert_eq!(info.profile, "level2");
    assert_eq!((info.width, info.height), (1024, 768));
    assert_eq!((info.max_width, info.max_height, info.max_area), (4000, 4000, 16_000_000));
    assert_eq!(info.tiles, description.tiles);
    assert_eq!(info.sizes, description.sizes);
    assert_eq!(info.extra_qualities, vec!["color", "gray", "bitonal"]);
    assert_eq!(info.extra_formats, vec!["gif", "jp2", "pdf", "tif", "webp"]);
    assert_eq!(info.extra_features.len(), 7);
}

#[test]
fn health_probe_accepts_200() {
    assert_eq!(judge_health(b"HTTP/1.1 200 OK\r\nContent-Length: 3\r\n\r\nok\n"), Ok(()));
    assert_eq!(judge_health(b"HTTP/1.1 200 OK\r\n"), Ok(()));
}

#[test]
fn health_probe_rejects_non_200() {
    let err = judge_health(b"HTTP/1.1 503 Service Unavailable\r\n").unwrap_err();
    assert_eq!(err, "/healthz answered 503");
}

#[test]
fn health_probe_rejects_garbage() {
    assert_eq!(judge_health(b"this is not http\r\n").unwrap_err(), "/healthz answered is");
    assert_eq!(judge_health(b"").unwrap_err(), "no status line in response");
    assert_eq!(judge_health(b"HTTP/1.1\r\n200 OK").unwrap_err(), "no status line in response");
    assert_eq!(judge_text("  HTTP/1.1\t200\u{3000}OK"), Ok(()));
}

#[test]
fn sent_etags_revalidate() {
    let etag = etag_text(0x0123_4567_89ab_cdef, 42);
    assert_eq!(etag, "\"0123456789abcdef000000000000002a\"");
    assert!(if_none_match_hits(&etag, &etag));
    assert!(if_none_match_hits(&format!("W/{etag}"), &etag));
    assert!(if_none_match_hits(&format!("\"x\", \t{etag}  ,\"y\""), &etag));
    assert!(if_none_match_hits(&format!("{etag},W/\"z\""), &etag));
    assert!(if_none_match_hits(&format!("\"a\",  W/{etag}"), &etag));
    assert!(!if_none_match_hits("\"0123456789abcdef000000000000002b\"", &etag));
}

#[test]
fn io_failures_are_classified() {
    let missing = std::io::Error::new(std::io::ErrorKind::NotFound, "gone");
    assert!(matches!(SourceError::from_io(missing), SourceError::NotFound));
    let denied = std::io::Error::new(std::io::ErrorKind::PermissionDenied, "denied");
    match SourceError::from_io(denied) {
        SourceError::Io(e) => {
            assert_eq!(e.kind(), std::io::ErrorKind::PermissionDenied);
            assert_eq!(e.to_string(), "denied");
        }
        other => panic!("expected Io, got {other:?}"),
    }
    let other = std::io::Error::new(std::io::ErrorKind::Other, "boom");
    assert!(matches!(SourceError::of_io(other, true), SourceError::NotFound));
    let other = std::io::Error::new(std::io::ErrorKind::NotFound, "boom");
    match SourceError::of_io(other, false) {
        SourceError::Io(e) => assert_eq!(e.to_string(), "boom"),
        other => panic!("expected Io, got {other:?}"),
    }
}

#[test]
fn histogram_buckets_never_decrease_and_inf_is_the_count() {
    let mut m = Metrics::new();
    for (i, nanos) in [1_000_000u128, 7_000_000, 40_000_000, 3_000_000_000, 20_000_000_000, 4_000_000]
        .into_iter()
        .enumerate()
    {
        m.observe(if i % 2 == 0 { Family::Image } else { Family::Info }, 200, nanos);
    }
    let text = m.render(0, 0);
    let buckets: Vec<u64> = text
        .lines()
        .filter(|l| l.starts_with("iiif_request_duration_seconds_bucket"))
        .map(|l| l.rsplit(' ').next().unwrap().parse().unwrap())
        .collect();
    assert_eq!(buckets.len(), 11);
    assert!(buckets.windows(2).all(|w| w[0] <= w[1]));
    assert_eq!(buckets, vec![2, 3, 3, 4, 4, 4, 4, 4, 4, 5, 6]);
    assert!(text.contains("iiif_request_duration_seconds_count 6\n"));
}

#[test]
fn health_judges_the_lossy_text_of_invalid_utf8() {
    assert_eq!(judge_health(b"HTTP/1.1\xff 200 OK\r\n"), Ok(()));
    assert_eq!(
        judge_health(b"HTTP/1.1 2\xff0 OK\r\n"),
        Err("/healthz answered 2\u{FFFD}0".to_string())
    );
}
