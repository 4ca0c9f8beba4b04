use playlist_engine::parse::{Direction, ListId, ParseError, Sort};

#[test]
fn url_with_query_parses_to_bare_id() {
    let r = ListId::from_str("https://open.spotify.com/playlist/37i9dQZF1DXcBWIGoYBM5M?si=abc");
    assert_eq!(r.unwrap().id, "37i9dQZF1DXcBWIGoYBM5M");
}

#[test]
fn url_without_query_parses_to_bare_id() {
    let r = ListId::from_str("https://open.spotify.com/playlist/37i9dQZF1DXcBWIGoYBM5M");
    assert_eq!(r.unwrap().id, "37i9dQZF1DXcBWIGoYBM5M");
}

#[test]
fn raw_id_accepted() {
    let r = ListId::from_str("37i9dQZF1DXcBWIGoYBM5M");
    assert_eq!(r.unwrap().id, "37i9dQZF1DXcBWIGoYBM5M");
}

#[test]
fn too_short_rejected() {
    let r = ListId::from_str("37i9dQZF1DXcBWIGoYBM5");
    assert_eq!(r.unwrap_err(), ParseError::InvalidPlaylistId);
}

#[test]
fn too_long_rejected() {
    let r = ListId::from_str("37i9dQZF1DXcBWIGoYBM5Mx");
    assert_eq!(r.unwrap_err(), ParseError::InvalidPlaylistId);
}

#[test]
fn non_alphanumeric_rejected() {
    let r = ListId::from_str("37i9dQZF1DXcBWIGoYBM5_");
    assert_eq!(r.unwrap_err(), ParseError::InvalidPlaylistId);
}

#[test]
fn empty_rejected() {
    let r = ListId::from_str("");
    assert_eq!(r.unwrap_err(), ParseError::InvalidPlaylistId);
}

#[test]
fn url_with_bad_id_rejected() {
    let r = ListId::from_str("https://open.spotify.com/playlist/short?si=abc");
    assert_eq!(r.unwrap_err(), ParseError::InvalidPlaylistId);
}

#[test]
fn raw_id_with_query_rejected() {
    // Without the URL prefix nothing is stripped, so the query mark stays
    // and the input fails the character check.
    let r = ListId::from_str("37i9dQZF1DXcBWIGoYBM5M?si=abc");
    assert_eq!(r.unwrap_err(), ParseError::InvalidPlaylistId);
}

#[test]
fn sort_from_str_random() {
    assert_eq!(Sort::from_str("random").unwrap(), Sort::Random);
    assert_eq!(Sort::from_str("RANDOM").unwrap(), Sort::Random);
    assert_eq!(Sort::from_str("RanDom").unwrap(), Sort::Random);
}

#[test]
fn sort_from_str_energy() {
    assert_eq!(Sort::from_str("energy").unwrap(), Sort::Energy);
    assert_eq!(Sort::from_str("Energy").unwrap(), Sort::Energy);
}

#[test]
fn sort_from_str_unknown() {
    assert_eq!(Sort::from_str("tempo").unwrap_err(), ParseError::UnknownSortKind);
    assert_eq!(Sort::from_str("").unwrap_err(), ParseError::UnknownSortKind);
}

#[test]
fn direction_from_str() {
    assert_eq!(Direction::from_str("ascending").unwrap(), Direction::Ascending);
    assert_eq!(Direction::from_str("DESCENDING").unwrap(), Direction::Descending);
    assert_eq!(Direction::from_str("up").unwrap_err(), ParseError::UnknownDirection);
}

#[test]
fn direction_default_is_ascending() {
    assert_eq!(Direction::default(), Direction::Ascending);
}
