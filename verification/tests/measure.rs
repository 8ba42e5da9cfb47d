use smartcast::measure::url_fits;

#[test]
fn short_texts_fit() {
    assert!(url_fits("https://tv", 10, 0));
    assert!(url_fits("anything", 8, 0));
    assert!(!url_fits("anything", 7, 9));
}

#[test]
fn only_the_authority_counts() {
    assert!(url_fits("https://tv.l/a/long/path?and#more", 4, 2));
    assert!(!url_fits("https://tv.l/a/long/path?and#more", 3, 2));
    assert!(url_fits("https://tv.l\\aaaaaaaaaaaaaaaaaaaa", 4, 2));
    assert!(url_fits("https://tv.l?aaaaaaaaaaaaaaaaaaaa", 4, 2));
    assert!(url_fits("https://tv.l#aaaaaaaaaaaaaaaaaaaa", 4, 2));
    assert!(!url_fits("https://u@tv.l/", 4, 2));
}

#[test]
fn slashes_behind_the_scheme_count_for_themselves() {
    assert!(url_fits("https:///\\tv.l/aaaaaaaa", 4, 4));
    assert!(!url_fits("https:///\\tv.l/aaaaaaaa", 4, 3));
    assert!(url_fits("https:tv.l/aaaaaaaa", 4, 0));
}

#[test]
fn controls_do_not_count() {
    assert!(url_fits("  HT\ttps:/\n/t\rv.l            ", 4, 2));
    assert!(!url_fits("  HT\ttps:/\n/t\rv .l            ", 4, 2));
    assert!(!url_fits("                ", 4, 2));
}

#[test]
fn long_texts_of_other_schemes_do_not_fit() {
    assert!(!url_fits("http://tv.l/aaaaaaaaaaaa", 4, 2));
    assert!(!url_fits("h ttps://tv.l/aaaaaaaaaa", 4, 2));
    assert!(!url_fits("aaaaaaaaaaaaaaaaaaaaaaaa", 4, 2));
}
