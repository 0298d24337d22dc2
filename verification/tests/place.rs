use fm::place::Place;

fn place(origin: &str, parts: &[&str]) -> Place {
    Place {
        origin: origin.to_owned(),
        parts: parts.iter().map(|part| (*part).to_owned()).collect(),
    }
}

fn file(parts: &[&str]) -> Place {
    place("file://", parts)
}

#[test]
fn a_place_is_within_itself_and_what_is_above_it() {
    let dir = file(&["home", "milo"]);
    assert!(dir.is_within(&dir));
    assert!(dir.is_within(&file(&["home"])));
    assert!(dir.is_within(&file(&[])));
    assert!(!dir.is_within(&file(&["home", "milo", "x"])));
    assert!(!dir.is_within(&file(&["home", "mi"])));
    assert!(!dir.is_within(&place("smb://host", &["home"])));
}

#[test]
fn a_child_lies_in_its_directory() {
    let dir = file(&["home"]);
    let child = dir.child(&"x".to_owned());
    assert_eq!(child, file(&["home", "x"]));
    assert!(child.is_in(&dir));
    assert!(!child.is_in(&child));
    assert!(!child.child(&"y".to_owned()).is_in(&dir));
    assert!(!file(&[]).is_in(&file(&[])));
    assert_eq!(child.basename(), Some(&"x".to_owned()));
    assert_eq!(file(&[]).basename(), None);
    assert!(child.is_same(&file(&["home", "x"])));
    assert!(!child.is_same(&place("ftp://h", &["home", "x"])));
}
