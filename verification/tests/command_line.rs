use erlangrt::command_line::{default_search_path, entry_point, read_path_list};

fn strings(list: &[&str]) -> Vec<String> {
    list.iter().map(|s| s.to_string()).collect()
}

fn entry(list: &[&str]) -> (String, String) {
    entry_point(&strings(list))
}

fn pair(m: &str, f: &str) -> (String, String) {
    (m.to_string(), f.to_string())
}

#[test]
fn a_start_names_its_function() {
    assert_eq!(entry(&[]), pair("test2", "test"));
    assert_eq!(entry(&["-m"]), pair("test2", "test"));
    assert_eq!(entry(&["erl", "-m", "a", "x", "-f", "b"]), pair("a", "b"));
    assert_eq!(entry(&["erl", "-f", "-m", "q"]), pair("test2", "-m"));
    assert_eq!(entry(&["erl", "-m", "a", "-m", "b", "-f"]), pair("b", "test"));
}

#[test]
fn modules_are_looked_for_in_order() {
    assert_eq!(read_path_list(&strings(&[" a ", "", " ", "b"])), strings(&["a", "b"]));
    assert_eq!(
        default_search_path(Some(" lib "), &strings(&["x", ""]), &strings(&["y"])),
        strings(&["priv/", "lib", "x", "y"])
    );
    assert_eq!(default_search_path(Some(" "), &vec![], &vec![]), strings(&["priv/"]));
    assert_eq!(default_search_path(None, &vec![], &vec![]), strings(&["priv/"]));
}
