use klyppd::server::{chunk_len, requested_range, response_header, video_url};

#[test]
fn ranges() {
    assert_eq!(requested_range("GET / HTTP/1.1\r\nHost: x\r\n\r\n", 1000), (0, 999));
    assert_eq!(requested_range("GET / HTTP/1.1\r\nRange: bytes=100-199\r\n\r\n", 1000), (100, 199));
    assert_eq!(requested_range("GET / HTTP/1.1\r\nRange: bytes=100-\r\n\r\n", 1000), (100, 999));
    assert_eq!(requested_range("Range: bytes=500-5000\n", 1000), (500, 999));
    assert_eq!(requested_range("Range: bytes=x-10", 1000), (0, 10));
    assert_eq!(requested_range("Range: bytes=-10", 1000), (0, 10));
    assert_eq!(requested_range("range: bytes=5-10\r\n", 1000), (0, 999));
    assert_eq!(requested_range("Range:bytes=5-10", 1000), (0, 10));
    assert_eq!(requested_range("Range: bytes=Range: bytes=7-8-9", 1000), (7, 8));
    assert_eq!(requested_range("Range: bytes=7-8\r", 1000), (7, 999));
    assert_eq!(requested_range("", 1), (0, 0));
}

#[test]
fn headers() {
    assert_eq!(
        response_header(0, 999, 1000),
        "HTTP/1.1 200 OK\r\nContent-Type: video/mp4\r\nContent-Length: 1000\r\nAccess-Control-Allow-Origin: *\r\nAccept-Ranges: bytes\r\n\r\n"
    );
    assert_eq!(
        response_header(100, 199, 1000),
        "HTTP/1.1 206 Partial Content\r\nContent-Type: video/mp4\r\nContent-Range: bytes 100-199/1000\r\nContent-Length: 100\r\nAccess-Control-Allow-Origin: *\r\nAccept-Ranges: bytes\r\n\r\n"
    );
    assert_eq!(chunk_len(100, 199), 100);
    assert_eq!(video_url(43117), "http://127.0.0.1:43117/video.mp4");
}
