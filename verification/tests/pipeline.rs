use base64::Engine;
use sub_converter::json::{obj_get, Json};
use sub_converter::parsers::{parse_node, parse_subscription};
use sub_converter::utils::{add_emoji, dedup_tags, enrich_nodes, filter_by_keywords};
use sub_converter::config::{convert, process_config};

fn get_str(node: &Json, key: &str) -> String {
    match obj_get(node, key) {
        Some(Json::Str(s)) => s.clone(),
        _ => panic!("expected string under {key}"),
    }
}

fn str_node(tag: &str) -> Json {
    Json::Obj(vec![
        ("tag".to_string(), Json::Str(tag.to_string())),
        ("type".to_string(), Json::Str("shadowsocks".to_string())),
    ])
}

fn tags_of(arr: &[Json]) -> Vec<String> {
    arr.iter()
        .map(|j| match j {
            Json::Str(s) => s.clone(),
            _ => panic!("expected string entry"),
        })
        .collect()
}

#[test]
fn test_add_emoji() {
    assert_eq!(add_emoji("香港节点"), "🇭🇰 香港节点");
    assert_eq!(add_emoji("US Server"), "🇺🇸 US Server");
    assert_eq!(add_emoji("Japan Tokyo"), "🇯🇵 Japan Tokyo");
}

#[test]
fn test_add_emoji_scenarios() {
    assert_eq!(add_emoji("HKT-01"), "🇭🇰 HKT-01");
    assert_eq!(add_emoji("US-Node"), "🇺🇸 US-Node");
    assert_eq!(add_emoji("🇯🇵 Tokyo"), "🇯🇵 Tokyo");
}

#[test]
fn test_subscription_two_vless_fragments() {
    let body = "vless://u@h.example:443?security=tls#tag1\nvless://u@h.example:443?security=tls#tag2\n";
    let (nodes, urls) = parse_subscription(body);
    assert_eq!(nodes.len(), 2);
    assert!(urls.is_empty());
    assert_eq!(get_str(&nodes[0], "tag"), "tag1");
    assert_eq!(get_str(&nodes[1], "tag"), "tag2");
    let deduped = dedup_tags(nodes);
    assert_eq!(get_str(&deduped[0], "tag"), "tag1");
    assert_eq!(get_str(&deduped[1], "tag"), "tag2");
}

#[test]
fn test_subscription_whole_body_base64() {
    let plain = "ss://YWVzLTI1Ni1nY206cGFzc3dvcmQ=@example.com:8388#One\n# a comment\nhttps://nested.example/sub\n";
    let body = base64::engine::general_purpose::STANDARD.encode(plain);
    let (nodes, urls) = parse_subscription(&body);
    assert_eq!(nodes.len(), 1);
    assert_eq!(get_str(&nodes[0], "tag"), "One");
    assert_eq!(urls, vec!["https://nested.example/sub".to_string()]);
}

#[test]
fn test_subscription_per_line_base64() {
    let inner = "ss://YWVzLTI1Ni1nY206cGFzc3dvcmQ=@example.com:8388#A\nss://YWVzLTI1Ni1nY206cGFzc3dvcmQ=@example.com:8389#B";
    let line = base64::engine::general_purpose::STANDARD.encode(inner);
    let (nodes, _urls) = parse_subscription(&line);
    assert_eq!(nodes.len(), 2);
    assert_eq!(get_str(&nodes[0], "tag"), "A");
    assert_eq!(get_str(&nodes[1], "tag"), "B");
}

#[test]
fn test_parse_node_unknown_scheme_dropped() {
    assert!(parse_node("socks5://x@y:1").is_none());
    assert!(parse_node("not a uri at all").is_none());
}

#[test]
fn test_parse_node_hy2_alias() {
    let node = parse_node("hy2://pw@h.example:443#H").expect("hy2 alias routes to hysteria2");
    assert_eq!(get_str(&node, "type"), "hysteria2");
}

#[test]
fn test_filter_by_keywords_exclude() {
    let nodes = vec![str_node("HK-1"), str_node("SG-1"), str_node("US-1")];
    let kept = filter_by_keywords(nodes, "SG", true);
    assert_eq!(kept.len(), 2);
    assert_eq!(get_str(&kept[0], "tag"), "HK-1");
    assert_eq!(get_str(&kept[1], "tag"), "US-1");
}

#[test]
fn test_filter_by_keywords_bad_pattern_is_noop() {
    let nodes = vec![str_node("HK-1"), str_node("SG-1")];
    let kept = filter_by_keywords(nodes, "(unclosed", true);
    assert_eq!(kept.len(), 2);
}

#[test]
fn test_dedup_appends_running_index() {
    let nodes = vec![str_node("A"), str_node("A"), str_node("B"), str_node("A")];
    let out = dedup_tags(nodes);
    assert_eq!(get_str(&out[0], "tag"), "A");
    assert_eq!(get_str(&out[1], "tag"), "A 1");
    assert_eq!(get_str(&out[2], "tag"), "B");
    assert_eq!(get_str(&out[3], "tag"), "A 2");
}

#[test]
fn test_dedup_no_duplicates_unchanged() {
    let nodes = vec![str_node("A"), str_node("B")];
    let out = dedup_tags(nodes);
    assert_eq!(get_str(&out[0], "tag"), "A");
    assert_eq!(get_str(&out[1], "tag"), "B");
}

#[test]
fn test_enrich_order_prefix_then_dedup() {
    let nodes = vec![str_node("HK"), str_node("HK")];
    let out = enrich_nodes(nodes, false, "P-", "");
    assert_eq!(get_str(&out[0], "tag"), "P-HK");
    assert_eq!(get_str(&out[1], "tag"), "P-HK 1");
}

fn outbounds_of(config: &Json) -> &Vec<Json> {
    match obj_get(config, "outbounds") {
        Some(Json::Arr(a)) => a,
        _ => panic!("outbounds array"),
    }
}

fn find_entry<'a>(entries: &'a [Json], tag: &str) -> &'a Json {
    entries
        .iter()
        .find(|e| matches!(obj_get(e, "tag"), Some(Json::Str(s)) if s == tag))
        .expect("entry present")
}

#[test]
fn test_template_exclude_scenario() {
    let template = "{\"outbounds\":[{\"tag\":\"Proxy\",\"type\":\"selector\",\"outbounds\":[\"{all}\"],\"filter\":[{\"action\":\"exclude\",\"keywords\":[\"CN\"]}]}]}";
    let nodes = vec![str_node("CN-1"), str_node("JP-1")];
    let config = process_config(nodes, 0, Some(template)).expect("template assembles");
    let entries = outbounds_of(&config);
    let proxy = find_entry(entries, "Proxy");
    assert!(obj_get(proxy, "filter").is_none());
    match obj_get(proxy, "outbounds") {
        Some(Json::Arr(items)) => assert_eq!(tags_of(items), vec!["JP-1".to_string()]),
        _ => panic!("Proxy outbounds array"),
    }
}

#[test]
fn test_filter_composition_scenario() {
    let template = "{\"outbounds\":[{\"tag\":\"Sel\",\"type\":\"selector\",\"outbounds\":[\"{all}\"],\"filter\":[{\"action\":\"include\",\"keywords\":[\"HK|SG\"]},{\"action\":\"exclude\",\"keywords\":[\"SG\"]}]}]}";
    let nodes = vec![str_node("HK-1"), str_node("SG-1"), str_node("US-1")];
    let config = process_config(nodes, 0, Some(template)).expect("template assembles");
    let entries = outbounds_of(&config);
    let sel = find_entry(entries, "Sel");
    match obj_get(sel, "outbounds") {
        Some(Json::Arr(items)) => assert_eq!(tags_of(items), vec!["HK-1".to_string()]),
        _ => panic!("Sel outbounds array"),
    }
}

#[test]
fn test_placeholder_expansion_no_filter() {
    let template = "{\"outbounds\":[{\"tag\":\"Sel\",\"type\":\"selector\",\"outbounds\":[\"direct\",\"{all}\"]},{\"tag\":\"direct\",\"type\":\"direct\"}]}";
    let nodes = vec![str_node("N1"), str_node("N2")];
    let config = process_config(nodes, 0, Some(template)).expect("template assembles");
    let entries = outbounds_of(&config);
    let sel = find_entry(entries, "Sel");
    match obj_get(sel, "outbounds") {
        Some(Json::Arr(items)) => assert_eq!(
            tags_of(items),
            vec!["direct".to_string(), "N1".to_string(), "N2".to_string()]
        ),
        _ => panic!("Sel outbounds array"),
    }
}

#[test]
fn test_prune_removes_dead_chain() {
    let template = "{\"outbounds\":[{\"tag\":\"A\",\"type\":\"selector\",\"outbounds\":[\"B\"]},{\"tag\":\"B\",\"type\":\"selector\",\"outbounds\":[]},{\"tag\":\"direct\",\"type\":\"direct\"}]}";
    let nodes = vec![str_node("N1")];
    let config = process_config(nodes, 0, Some(template)).expect("template assembles");
    let entries = outbounds_of(&config);
    assert!(entries
        .iter()
        .all(|e| !matches!(obj_get(e, "tag"), Some(Json::Str(s)) if s == "A" || s == "B")));
    find_entry(entries, "direct");
    find_entry(entries, "N1");
}

#[test]
fn test_bad_custom_template_falls_back() {
    let nodes = vec![str_node("N1")];
    let config = process_config(nodes, 0, Some("this is not json")).expect("falls back");
    let entries = outbounds_of(&config);
    let proxy = find_entry(entries, "Proxy");
    match obj_get(proxy, "outbounds") {
        Some(Json::Arr(items)) => {
            assert_eq!(
                tags_of(items),
                vec!["Auto".to_string(), "N1".to_string()]
            );
        },
        _ => panic!("Proxy outbounds array"),
    }
}

#[test]
fn test_template_outbounds_wrong_type_is_fatal() {
    let template = "{\"outbounds\":42}";
    let nodes = vec![str_node("N1")];
    let r = process_config(nodes, 0, Some(template));
    assert!(matches!(r, Err(sub_converter::error::AppError::InvalidFormat(_))));
}

#[test]
fn test_convert_empty_result_is_fatal() {
    let bodies = vec!["# nothing here\n".to_string()];
    let r = convert(&bodies, false, "", "", 0, None);
    assert!(matches!(r, Err(sub_converter::error::AppError::InvalidFormat(_))));
}

#[test]
fn test_convert_end_to_end() {
    let bodies = vec![
        "ss://YWVzLTI1Ni1nY206cGFzc3dvcmQ=@example.com:8388#HK-01\nss://YWVzLTI1Ni1nY206cGFzc3dvcmQ=@example.com:8389#US-01\n"
            .to_string(),
    ];
    let config = convert(&bodies, true, "", "US", 0, None).expect("pipeline runs");
    let entries = outbounds_of(&config);
    let proxy = find_entry(entries, "Proxy");
    match obj_get(proxy, "outbounds") {
        Some(Json::Arr(items)) => {
            assert_eq!(
                tags_of(items),
                vec!["Auto".to_string(), "🇭🇰 HK-01".to_string()]
            );
        },
        _ => panic!("Proxy outbounds array"),
    }
    find_entry(entries, "🇭🇰 HK-01");
}

#[test]
fn test_parse_json_round_values() {
    let doc = sub_converter::json_text::parse_json_str(
        " {\"a\": [1, 2.5, true, null, \"x\\u0041\"], \"b\": {\"c\": \"d\"}} ",
    )
    .expect("valid json parses");
    match obj_get(&doc, "a") {
        Some(Json::Arr(items)) => {
            assert!(matches!(&items[0], Json::Num(s) if s == "1"));
            assert!(matches!(&items[1], Json::Num(s) if s == "2.5"));
            assert!(matches!(&items[2], Json::Bool(true)));
            assert!(matches!(&items[3], Json::Null));
            assert!(matches!(&items[4], Json::Str(s) if s == "xA"));
        },
        _ => panic!("array under a"),
    }
    let b = obj_get(&doc, "b").expect("object under b");
    assert_eq!(get_str(b, "c"), "d");
}

#[test]
fn test_parse_json_rejects_trailing() {
    assert!(sub_converter::json_text::parse_json_str("{} garbage").is_none());
    assert!(sub_converter::json_text::parse_json_str("{\"a\":01}").is_none());
}

#[test]
fn test_ipv6_bracket_host() {
    let node = sub_converter::parsers::vless::parse("vless://u@[2001:db8::1]:443?security=tls#v6")
        .expect("bracketed host decodes");
    assert_eq!(get_str(&node, "server"), "[2001:db8::1]");
}

#[test]
fn test_port_out_of_range_rejected() {
    let r = sub_converter::parsers::vless::parse("vless://u@h.example:99999#x");
    assert!(matches!(r, Err(sub_converter::error::AppError::UrlParse)));
}

#[test]
fn test_query_plus_decodes_as_space() {
    let node = sub_converter::parsers::vless::parse(
        "vless://u@h.example:443?security=tls&sni=a+b#q",
    )
    .expect("query decodes");
    let tls = obj_get(&node, "tls").expect("tls block");
    assert_eq!(get_str(tls, "server_name"), "a b");
}

#[test]
fn test_fragment_bad_percent_kept_verbatim() {
    let node = sub_converter::parsers::vless::parse("vless://u@h.example:443#a%zz")
        .expect("unmatched percent passes through");
    assert_eq!(get_str(&node, "tag"), "a%zz");
}
