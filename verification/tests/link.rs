use crawler::link::{
    chars_of, file_name_of, name_has_extension, path_names_file, relative_path_of, starts_at_root,
};

fn chars(s: &str) -> Vec<char> {
    s.chars().collect()
}

#[test]
fn chars_of_a_text_are_its_characters() {
    assert_eq!(chars_of("a/b"), vec!['a', '/', 'b']);
    assert_eq!(chars_of(""), Vec::<char>::new());
    assert_eq!(chars_of("é€"), vec!['é', '€']);
}

#[test]
fn path_of_a_relative_link_ends_at_query_or_fragment() {
    assert_eq!(relative_path_of(&chars("/x/y?q#f")), chars("/x/y"));
    assert_eq!(relative_path_of(&chars("/x/y#f?q")), chars("/x/y"));
    assert_eq!(relative_path_of(&chars("x/y")), chars("x/y"));
    assert_eq!(relative_path_of(&chars("?q")), chars(""));
    assert_eq!(relative_path_of(&chars("#f")), chars(""));
    assert_eq!(relative_path_of(&chars("")), chars(""));
}

#[test]
fn path_names_a_file_by_its_last_segment() {
    assert!(path_names_file(&chars("/x.pdf")));
    assert!(path_names_file(&chars("/a/b.c")));
    assert!(path_names_file(&chars("b.c")));
    assert!(!path_names_file(&chars("/a.b/c")));
    assert!(!path_names_file(&chars("/x.pdf/")));
    assert!(!path_names_file(&chars("/")));
    assert!(!path_names_file(&chars("")));
    assert!(!path_names_file(&chars("/a/..")));
}

#[test]
fn file_name_follows_the_last_slash() {
    assert_eq!(file_name_of(&chars("/x/y.z")), chars("y.z"));
    assert_eq!(file_name_of(&chars("y.z")), chars("y.z"));
    assert_eq!(file_name_of(&chars("/x/")), chars(""));
    assert_eq!(file_name_of(&chars("")), chars(""));
}

#[test]
fn extension_needs_a_dot_behind_the_first_character() {
    assert!(name_has_extension(&chars("a.b")));
    assert!(name_has_extension(&chars("a.")));
    assert!(name_has_extension(&chars("..a")));
    assert!(!name_has_extension(&chars(".a")));
    assert!(!name_has_extension(&chars("..")));
    assert!(!name_has_extension(&chars(".")));
    assert!(!name_has_extension(&chars("ab")));
    assert!(!name_has_extension(&chars("")));
}

#[test]
fn root_relative_link_starts_with_a_slash() {
    assert!(starts_at_root("/"));
    assert!(starts_at_root("/a"));
    assert!(starts_at_root("//a.com"));
    assert!(!starts_at_root(""));
    assert!(!starts_at_root("a/"));
    assert!(!starts_at_root("./a"));
}
