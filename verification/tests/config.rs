use polaris::config::{read_int_pair, Config, ConfigError};
use polaris::net::{Ipv4Addr, SocketAddr};
use polaris::text::{parse_u8, split_bytes, trim_bytes};

const GOOD: &str = "127.0.0.1:9090\n127.0.0.1:9091, 10.0.0.2:80\n3,2\n4,7\n15\n2,5\n";

#[test]
fn config_file_is_read() {
    let c = Config::parse(&GOOD.as_bytes().to_vec()).unwrap();
    assert_eq!(c.local_addr, SocketAddr::new(Ipv4Addr(127, 0, 0, 1), 9090));
    assert_eq!(
        c.contact_nodes,
        vec![SocketAddr::new(Ipv4Addr(127, 0, 0, 1), 9091), SocketAddr::new(Ipv4Addr(10, 0, 0, 2), 80)]
    );
    assert_eq!(c.active_random_walk_length, 3);
    assert_eq!(c.passive_random_walk_length, 2);
    assert_eq!(c.active_view_size, 4);
    assert_eq!(c.passive_view_size, 7);
    assert_eq!(c.shuffle_period_seconds, 15);
    assert_eq!(c.shuffle_active_view_count, 2);
    assert_eq!(c.shuffle_passive_view_count, 5);
    assert_eq!(c.shuffle_walk_length, 3);
}

#[test]
fn config_without_final_newline_and_with_spaces() {
    let text = "  127.0.0.1:9090 \r\n 1.2.3.4:5 \n +3,2 \n4,7\n 15 \n2,5";
    let c = Config::parse(&text.as_bytes().to_vec()).unwrap();
    assert_eq!(c.contact_nodes, vec![SocketAddr::new(Ipv4Addr(1, 2, 3, 4), 5)]);
    assert_eq!(c.active_random_walk_length, 3);
    assert_eq!(c.shuffle_passive_view_count, 5);
}

#[test]
fn config_errors() {
    let cases: Vec<(&str, ConfigError)> = vec![
        ("", ConfigError::MissingLine),
        ("127.0.0.1:9090\n", ConfigError::MissingLine),
        ("127.0.0.1:9090\n1.1.1.1:1\n3,2\n4,7\n15\n", ConfigError::MissingLine),
        ("127.0.0.1\n1.1.1.1:1\n3,2\n4,7\n15\n2,5\n", ConfigError::MalformedAddress),
        ("127.0.0.1:1\n1.1.1.1:1,\n3,2\n4,7\n15\n2,5\n", ConfigError::MalformedAddress),
        ("127.0.0.1:1\n\n3,2\n4,7\n15\n2,5\n", ConfigError::MalformedAddress),
        ("127.0.0.1:1\n1.1.1.1:1\n3, 2\n4,7\n15\n2,5\n", ConfigError::ExpectedInt),
        ("127.0.0.1:1\n1.1.1.1:1\n3\n4,7\n15\n2,5\n", ConfigError::ExpectedInt),
        ("127.0.0.1:1\n1.1.1.1:1\n3,2\n4,700\n15\n2,5\n", ConfigError::ExpectedInt),
        ("127.0.0.1:1\n1.1.1.1:1\n3,2\n4,7\nx\n2,5\n", ConfigError::ExpectedInt),
        ("127.0.0.1:1\n1.1.1.1:1\n3,2\n4,7\n15\n2,-5\n", ConfigError::ExpectedInt),
    ];
    for (text, err) in cases {
        assert_eq!(Config::parse(&text.as_bytes().to_vec()).unwrap_err(), err, "{:?}", text);
    }
}

#[test]
fn int_pairs() {
    assert_eq!(read_int_pair(&b" 3,4\n".to_vec()), Some((3, 4)));
    assert_eq!(read_int_pair(&b"3,4,5".to_vec()), Some((3, 4)));
    assert_eq!(read_int_pair(&b"3,256".to_vec()), None);
    assert_eq!(read_int_pair(&b"3 ,4".to_vec()), None);
    assert_eq!(read_int_pair(&b"3".to_vec()), None);
}

#[test]
fn text_helpers() {
    assert_eq!(trim_bytes(&b" \t a b \r\n".to_vec()), b"a b".to_vec());
    assert_eq!(trim_bytes(&b"   ".to_vec()), Vec::<u8>::new());
    assert_eq!(split_bytes(&b"a,,b".to_vec(), b','), vec![b"a".to_vec(), vec![], b"b".to_vec()]);
    assert_eq!(split_bytes(&Vec::new(), b','), vec![Vec::<u8>::new()]);
    assert_eq!(parse_u8(&b"255".to_vec()), Some(255));
    assert_eq!(parse_u8(&b"+7".to_vec()), Some(7));
    assert_eq!(parse_u8(&b"0007".to_vec()), Some(7));
    assert_eq!(parse_u8(&b"256".to_vec()), None);
    assert_eq!(parse_u8(&b"99999999999".to_vec()), None);
    assert_eq!(parse_u8(&b"+".to_vec()), None);
    assert_eq!(parse_u8(&b"".to_vec()), None);
    assert_eq!(parse_u8(&b"1a".to_vec()), None);
}
