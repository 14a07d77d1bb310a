use polarwarp::detect::{choose_separator, count_char};

#[test]
fn counting_characters() {
    assert_eq!(count_char("a\tb\tc", '\t'), 2);
    assert_eq!(count_char("a,b,c,d", ','), 3);
    assert_eq!(count_char("", '\t'), 0);
    assert_eq!(count_char("abc", ','), 0);
}

#[test]
fn separator_choice() {
    // More tabs than commas: tab.
    assert_eq!(choose_separator(3, 1), b'\t');
    // More commas: comma.
    assert_eq!(choose_separator(1, 3), b',');
    // Equal non-zero counts: comma (ties go to the comma branch).
    assert_eq!(choose_separator(2, 2), b',');
    // Neither occurs: default to tab.
    assert_eq!(choose_separator(0, 0), b'\t');
}

#[test]
fn separator_from_header_line() {
    let header = "idx\tthread\top\tclient_id\tn_objects\tbytes";
    let tabs = count_char(header, '\t');
    let commas = count_char(header, ',');
    assert_eq!(choose_separator(tabs, commas), b'\t');
    let header2 = "idx,thread,op,client_id";
    assert_eq!(
        choose_separator(count_char(header2, '\t'), count_char(header2, ',')),
        b','
    );
}
