//! The GPX loader on concrete documents.

use gps_analyzer::io::io_errors::IOErrorType;
use gps_analyzer::io::track_loader::load_track;

fn doc(body: &str) -> Vec<u8> {
    body.as_bytes().to_vec()
}

const SMALL: &str = "<?xml version=\"1.0\"?>\n<gpx><trk><trkseg>\n<trkpt lat=\"45.5\" lon=\"25.25\"><ele>100.5</ele><time>2020-01-01T10:00:00Z</time></trkpt>\n<trkpt lat=\"45.6\" lon=\"-25.35\"><time>2020-01-01T10:00:01.5Z</time></trkpt>\n</trkseg></trk></gpx>\n";

#[test]
fn loads_points_with_times_and_elevations() {
    let tr = load_track("ride.gpx", &doc(SMALL)).unwrap();
    assert_eq!(tr.track.len(), 2);
    // 2020-01-01T10:00:00Z in milliseconds since the epoch.
    assert_eq!(tr.start_time_ms, 1_577_872_800_000);
    let p0 = tr.track[0];
    assert_eq!(p0.lat, 45_500_000);
    assert_eq!(p0.lon, 25_250_000);
    assert_eq!(p0.elev, Some(100_500));
    assert_eq!(p0.delta_ms, Some(0));
    let p1 = tr.track[1];
    assert_eq!(p1.lat, 45_600_000);
    assert_eq!(p1.lon, -25_350_000);
    assert_eq!(p1.elev, Some(0));
    assert_eq!(p1.delta_ms, Some(1500));
}

#[test]
fn start_time_with_zone_offset() {
    let body = "<gpx><trkpt lat=\"1\" lon=\"2\"><time>2020-01-01T12:00:00+02:00</time></trkpt></gpx>";
    let tr = load_track("ride.gpx", &doc(body)).unwrap();
    // Noon at +02:00 is ten in the morning in universal time.
    assert_eq!(tr.start_time_ms, 1_577_872_800_000);
}

#[test]
fn comments_and_declarations_are_skipped() {
    let body = "<?xml version=\"1.0\"?><!-- a > b --><gpx><trkpt lat=\"1.5\" lon=\"2\"/><trkpt lat=\"3\" lon=\"4\"></trkpt></gpx>";
    let tr = load_track("ride.gpx", &doc(body)).unwrap();
    // The self-closing point emits nothing; the open-and-closed one
    // does.
    assert_eq!(tr.track.len(), 1);
    assert_eq!(tr.track[0].lat, 3_000_000);
    assert_eq!(tr.track[0].lon, 4_000_000);
}

#[test]
fn missing_lat_fails_the_parse() {
    let body = "<gpx><trkpt lon=\"2\"></trkpt></gpx>";
    let err = load_track("ride.gpx", &doc(body)).unwrap_err();
    assert!(matches!(err.etype, IOErrorType::XmlParsingFail(_)));
}

#[test]
fn malformed_lat_fails_the_parse() {
    let body = "<gpx><trkpt lat=\"4x\" lon=\"2\"></trkpt></gpx>";
    let err = load_track("ride.gpx", &doc(body)).unwrap_err();
    assert!(matches!(err.etype, IOErrorType::XmlParsingFail(_)));
}

#[test]
fn decreasing_times_fail_the_parse() {
    let body = "<gpx><trkpt lat=\"1\" lon=\"2\"><time>2020-01-01T10:00:05Z</time></trkpt><trkpt lat=\"1\" lon=\"2\"><time>2020-01-01T10:00:06Z</time></trkpt><trkpt lat=\"1\" lon=\"2\"><time>2020-01-01T10:00:04Z</time></trkpt></gpx>";
    let err = load_track("ride.gpx", &doc(body)).unwrap_err();
    assert!(matches!(err.etype, IOErrorType::XmlParsingFail(_)));
}

#[test]
fn bad_elevation_is_a_reader_failure() {
    let body = "<gpx><trkpt lat=\"1\" lon=\"2\"><ele>high</ele></trkpt></gpx>";
    let err = load_track("ride.gpx", &doc(body)).unwrap_err();
    assert!(matches!(err.etype, IOErrorType::XmlReaderFail(_)));
}

#[test]
fn unterminated_markup_is_a_reader_failure() {
    let body = "<gpx><trkpt lat=\"1\" lon=\"2\"";
    let err = load_track("ride.gpx", &doc(body)).unwrap_err();
    assert!(matches!(err.etype, IOErrorType::XmlReaderFail(_)));
}

#[test]
fn wrong_extension_is_refused() {
    let err = load_track("ride.txt", &doc(SMALL)).unwrap_err();
    assert!(matches!(err.etype, IOErrorType::FormatNotSupported(_)));
}

#[test]
fn missing_extension_is_refused() {
    let err = load_track("ride", &doc(SMALL)).unwrap_err();
    assert!(matches!(err.etype, IOErrorType::InvalidPath(_)));
    let err2 = load_track("dir.gpx/ride", &doc(SMALL)).unwrap_err();
    assert!(matches!(err2.etype, IOErrorType::InvalidPath(_)));
}

#[test]
fn empty_document_yields_empty_track() {
    let tr = load_track("ride.gpx", &doc("")).unwrap();
    assert_eq!(tr.track.len(), 0);
    assert_eq!(tr.start_time_ms, 0);
}
