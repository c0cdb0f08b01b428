use fritztv::channels::{parse_m3u, Channel};

#[test]
fn test_parse_m3u() {
    let data = r#"#EXTM3U
#EXTINF:0,3sat SD
#EXTVLCOPT:network-caching=1000
rtsp://192.168.178.1:554/?avm=1&freq=450&bw=8&msys=dvbc&mtype=256qam&sr=6900&specinv=1&pids=0,16,17,18,20,200,210,220,221,222,231,250
#EXTINF:0,KiKA SD
#EXTVLCOPT:network-caching=1000
rtsp://192.168.178.1:554/?avm=1&freq=450&bw=8&msys=dvbc&mtype=256qam&sr=6900&specinv=1&pids=0,16,17,18,20,300,310,320,321,322,331"#;

    let channels = parse_m3u(data).unwrap();
    assert_eq!(channels.len(), 2);
    assert_eq!(channels[0].name, "3sat SD");
    assert!(channels[0].url.starts_with("rtsp://"));
    assert_eq!(channels[1].name, "KiKA SD");
}

fn render(channels: &[Channel]) -> String {
    let mut text = String::from("#EXTM3U\n");
    for c in channels {
        text.push_str(&format!("#EXTINF:0,{}\n{}\n", c.name, c.url));
    }
    text
}

#[test]
fn parsed_channels_are_the_written_ones() {
    let channels = vec![
        Channel { name: "Das Erste HD".to_string(), url: "rtsp://h/?freq=330&pids=1".to_string() },
        Channel { name: "ZDF, Mainz".to_string(), url: "rtsp://h/?freq=450&pids=2".to_string() },
        Channel { name: String::new(), url: "rtsp://h/".to_string() },
    ];
    let parsed = parse_m3u(&render(&channels)).unwrap();
    assert_eq!(parsed.len(), channels.len());
    for (i, c) in channels.iter().enumerate() {
        assert_eq!(parsed[i].name, c.name);
        assert_eq!(parsed[i].url, c.url);
    }
}

#[test]
fn lines_are_trimmed_and_odd_lines_passed_over() {
    let text = "  #EXTINF:12,  Name  \r\n\r\nhttp://x\n  rtsp://h/1  \r\nrtsp://h/2\n#EXTINF:-1,Bad\nrtsp://h/3\nxx#EXTINF:7,Late\nrtsp://h/4";
    let parsed = parse_m3u(text).unwrap();
    assert_eq!(parsed.len(), 2);
    assert_eq!(parsed[0].name, "Name");
    assert_eq!(parsed[0].url, "rtsp://h/1");
    assert_eq!(parsed[1].name, "Late");
    assert_eq!(parsed[1].url, "rtsp://h/4");
}

#[test]
fn later_announcement_replaces_the_pending_name() {
    let parsed = parse_m3u("#EXTINF:0,A\n#EXTINF:0,B\nrtsp://h/").unwrap();
    assert_eq!(parsed.len(), 1);
    assert_eq!(parsed[0].name, "B");
    assert!(parse_m3u("").unwrap().is_empty());
    assert!(parse_m3u("#EXTINF:0,A\n").unwrap().is_empty());
    assert!(parse_m3u("#EXTINF:,A\nrtsp://h/").unwrap().is_empty());
}

#[test]
fn announcement_needs_tag_digits_and_comma() {
    let parsed = parse_m3u("#EXTINF:1#EXTINF:22,X,Y\nrtsp://h/").unwrap();
    assert_eq!(parsed.len(), 1);
    assert_eq!(parsed[0].name, "X,Y");
}
