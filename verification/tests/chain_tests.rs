use proxy_dll::chain::{dll_candidates, is_dll_file_name};

#[test]
fn candidates_keep_library_entries_in_listing_order() {
    // Directory listing `a.dll`, `b.DLL`, `c.txt`: exactly the first two
    // are handed to the load primitive, in listing order.
    let entries = vec!["a.dll".to_string(), "b.DLL".to_string(), "c.txt".to_string()];
    let cands = dll_candidates(&entries);
    assert_eq!(cands, vec!["a.dll".to_string(), "b.DLL".to_string()]);
}

#[test]
fn one_failed_load_does_not_hide_the_next_candidate() {
    // The candidate list is fixed before any load happens, so a failure on
    // `a.dll` leaves the attempt on `b.DLL` untouched.
    let entries = vec!["a.dll".to_string(), "b.DLL".to_string(), "c.txt".to_string()];
    let mut attempted = Vec::new();
    for c in dll_candidates(&entries) {
        let load_ok = c != "a.dll"; // simulate: loading a.dll fails
        attempted.push(c);
        let _ = load_ok; // a failed load is ignored, best-effort
    }
    assert_eq!(attempted, vec!["a.dll".to_string(), "b.DLL".to_string()]);
}

#[test]
fn extension_match_is_case_insensitive() {
    assert!(is_dll_file_name("x.dll"));
    assert!(is_dll_file_name("x.DLL"));
    assert!(is_dll_file_name("x.Dll"));
    assert!(is_dll_file_name("lib.a.dLl"));
    assert!(!is_dll_file_name("x.txt"));
    assert!(!is_dll_file_name("x.dll.bak"));
    assert!(!is_dll_file_name("dll"));
    assert!(!is_dll_file_name(".dll"));
    assert!(!is_dll_file_name("x."));
    assert!(!is_dll_file_name(""));
}

#[test]
fn empty_listing_yields_no_candidates() {
    let cands = dll_candidates(&Vec::new());
    assert!(cands.is_empty());
}
