use cloppy::icons::{IconLookup, Icons};
use cloppy::item::DisplayItem;

fn item(name: &str, flags: u16) -> DisplayItem {
    DisplayItem { name: name.to_string(), path: vec![], size: vec![], matches: vec![], flags }
}

#[test]
fn icons_by_kind_and_extension() {
    let mut icons = Icons::new(1, 2);
    assert_eq!(IconLookup::Found(2), icons.get(&item("folder.txt", 2)));
    assert_eq!(IconLookup::Found(1), icons.get(&item("README", 0)));
    assert_eq!(IconLookup::Found(1), icons.get(&item(".bashrc", 0)));
    assert_eq!(IconLookup::Found(1), icons.get(&item("..", 0)));
    assert_eq!(IconLookup::Missing("txt".to_string()), icons.get(&item("a.b.txt", 0)));
    assert_eq!(IconLookup::Missing("".to_string()), icons.get(&item("a.", 0)));
    icons.remember("txt".to_string(), 7);
    assert_eq!(IconLookup::Found(7), icons.get(&item("notes.txt", 0)));
    assert_eq!(IconLookup::Missing("TXT".to_string()), icons.get(&item("NOTES.TXT", 0)));
    icons.remember("txt".to_string(), 9);
    assert_eq!(Some(9), icons.lookup(&"txt".to_string()));
    assert_eq!(None, icons.lookup(&"doc".to_string()));
    let icon = icons.icon(77, 9);
    assert_eq!(16, icon.width);
    assert_eq!(77, icon.image_list);
    assert_eq!(9, icon.index);
}
