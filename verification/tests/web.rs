use babelsim_core::floor_type::FloorType;
use babelsim_core::text::{chars_of, parse_i32, parse_u32};
use babelsim_core::web::{floor_type_by_name, param, param_i32, param_u32, parse_params, route, urlencoding, Request};

fn pairs(v: &[(&str, &str)]) -> Vec<(String, String)> {
    v.iter().map(|(k, x)| (k.to_string(), x.to_string())).collect()
}

#[test]
fn decodes_the_six_escapes() {
    assert_eq!(urlencoding("a%20b%2Fc%3Ad%3Fe%26f%3Dg"), "a b/c:d?e&f=g");
    assert_eq!(urlencoding("plain"), "plain");
    assert_eq!(urlencoding(""), "");
}

#[test]
fn leaves_other_escapes_alone() {
    assert_eq!(urlencoding("%41%2f%2"), "%41%2f%2");
    assert_eq!(urlencoding("100%"), "100%");
}

#[test]
fn decodes_one_escape_after_the_other() {
    // "%2" followed by "%3D" becomes "%2=" only after the last replacement,
    // so nothing earlier sees the "%2=".
    assert_eq!(urlencoding("%2%3D"), "%2=");
    // The escape "%26" decoded into "&" is not read again as an escape.
    assert_eq!(urlencoding("%%2620"), "%&20");
    // A "%20" that appears once "%3A" is decoded stays as it is.
    assert_eq!(urlencoding("%%3A20"), "%:20");
}

#[test]
fn params_of_a_query_string() {
    assert_eq!(parse_params("/build?type=Hotel&level=3"), pairs(&[("type", "Hotel"), ("level", "3")]));
    assert_eq!(parse_params("/build"), pairs(&[]));
    assert_eq!(parse_params("/build?"), pairs(&[]));
    assert_eq!(parse_params("/x?a=1&b&c=&=d"), pairs(&[("a", "1"), ("c", ""), ("", "d")]));
    assert_eq!(parse_params("/x?a=b=c"), pairs(&[("a", "b=c")]));
}

#[test]
fn only_the_first_query_counts() {
    assert_eq!(parse_params("/x?a=1?b=2"), pairs(&[("a", "1")]));
    assert_eq!(parse_params("/x??a=1"), pairs(&[]));
}

#[test]
fn params_are_decoded() {
    assert_eq!(parse_params("/x?na%20me=a%26b&k=v%3Dw"), pairs(&[("na me", "a&b"), ("k", "v=w")]));
}

#[test]
fn the_last_param_wins() {
    let ps = parse_params("/spawn?from=1&to=2&from=7");
    assert_eq!(param(&ps, "from"), Some("7".to_string()));
    assert_eq!(param(&ps, "to"), Some("2".to_string()));
    assert_eq!(param(&ps, "count"), None);
}

#[test]
fn numeric_params_and_their_defaults() {
    let ps = parse_params("/x?a=12&b=-4&c=x1&d=+9&e=99999999999&f=");
    assert_eq!(param_i32(&ps, "a", 0), 12);
    assert_eq!(param_i32(&ps, "b", 0), -4);
    assert_eq!(param_u32(&ps, "b", 5), 5);
    assert_eq!(param_i32(&ps, "c", 3), 3);
    assert_eq!(param_u32(&ps, "d", 0), 9);
    assert_eq!(param_u32(&ps, "e", 1), 1);
    assert_eq!(param_i32(&ps, "f", 8), 8);
    assert_eq!(param_i32(&ps, "missing", -1), -1);
}

#[test]
fn numbers_are_read_as_the_standard_library_reads_them() {
    let samples = [
        "", "+", "-", "0", "-0", "+0", "7", "+7", "-7", "007", "12a", "a12", " 1", "1 ", "1_000",
        "2147483647", "2147483648", "-2147483648", "-2147483649", "4294967295", "4294967296",
        "-4294967295", "99999999999999999999999", "--1", "+-1", "-+1", "٣", "1.0",
    ];
    for s in samples.iter() {
        let cs = chars_of(s);
        assert_eq!(parse_i32(&cs), s.parse::<i32>().ok(), "i32 of {:?}", s);
        assert_eq!(parse_u32(&cs), s.parse::<u32>().ok(), "u32 of {:?}", s);
    }
}

#[test]
fn floor_types_by_name() {
    let name = |s: &str| Some(s.to_string());
    assert_eq!(floor_type_by_name(&name("Office")), FloorType::Office);
    assert_eq!(floor_type_by_name(&name("Hotel")), FloorType::Hotel);
    assert_eq!(floor_type_by_name(&name("Restaurant")), FloorType::Restaurant);
    assert_eq!(floor_type_by_name(&name("Retail")), FloorType::Retail);
    assert_eq!(floor_type_by_name(&name("Residential")), FloorType::Residential);
    assert_eq!(floor_type_by_name(&name("Lobby")), FloorType::Lobby);
    assert_eq!(floor_type_by_name(&name("Observatory")), FloorType::Observatory);
    assert_eq!(floor_type_by_name(&name("hotel")), FloorType::Office);
    assert_eq!(floor_type_by_name(&None), FloorType::Office);
}

#[test]
fn pages_and_figures_are_read_with_get() {
    assert_eq!(route("GET", "/"), Request::Page);
    assert_eq!(route("GET", "/index.html"), Request::Page);
    assert_eq!(route("GET", "/state"), Request::State);
    assert_eq!(route("GET", "/metrics"), Request::Metrics);
    assert_eq!(route("GET", "/state?x=1"), Request::NotFound);
    assert_eq!(route("POST", "/state"), Request::NotFound);
    assert_eq!(route("GET", "/build?type=Hotel"), Request::NotFound);
    assert_eq!(route("get", "/"), Request::NotFound);
}

#[test]
fn actions_are_taken_with_post() {
    assert_eq!(route("POST", "/reset"), Request::Reset);
    assert_eq!(route("POST", "/resetting"), Request::Reset);
    assert_eq!(
        route("POST", "/build?type=Hotel&level=3"),
        Request::Build { floor_type: FloorType::Hotel, level: 3 }
    );
    assert_eq!(route("POST", "/build"), Request::Build { floor_type: FloorType::Office, level: 0 });
    assert_eq!(
        route("POST", "/build?type=Lobby&level=-2"),
        Request::Build { floor_type: FloorType::Lobby, level: -2 }
    );
    assert_eq!(route("POST", "/elevator?shaft=4"), Request::Elevator { shaft: 4 });
    assert_eq!(route("POST", "/elevator?shaft=-4"), Request::Elevator { shaft: 0 });
    assert_eq!(
        route("POST", "/spawn?from=0&to=12&count=3"),
        Request::Spawn { from: 0, to: 12, count: 3 }
    );
    assert_eq!(route("POST", "/spawn"), Request::Spawn { from: 0, to: 0, count: 1 });
    assert_eq!(route("POST", "/advance?minutes=1440"), Request::Advance { minutes: 1440 });
    assert_eq!(route("POST", "/advance"), Request::Advance { minutes: 60 });
    assert_eq!(route("POST", "/advance?minutes=lots"), Request::Advance { minutes: 60 });
    assert_eq!(route("POST", "/nowhere"), Request::NotFound);
    assert_eq!(route("DELETE", "/reset"), Request::NotFound);
}

#[test]
fn decoding_twice_is_decoding_once() {
    let samples = [
        "a%20b%2Fc%3Ad%3Fe%26f%3Dg", "%%2620", "%2%3D", "%%3A20", "%2520", "%%%20%20", "%3%3D%3D", "", "%",
    ];
    for s in samples.iter() {
        let once = urlencoding(s);
        assert_eq!(urlencoding(&once), once, "decoding {:?}", s);
    }
}

#[test]
fn decoding_shortens_by_two_per_escape() {
    let cases = [("a%20b%2Fc%3Ad%3Fe%26f%3Dg", 6), ("%%2620", 1), ("%2%3D", 1), ("plain", 0), ("%2520", 0)];
    for (s, escapes) in cases.iter() {
        assert_eq!(urlencoding(s).chars().count(), s.chars().count() - 2 * escapes, "decoding {:?}", s);
    }
}
