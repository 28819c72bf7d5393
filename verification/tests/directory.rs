use alloy::image_cache::directory::DirItem;
use alloy::image_cache::directory::Directory;
use alloy::image_cache::errors::DirError;

fn item(name: &str, request_id: u32) -> DirItem {
    DirItem { path: format!("/pictures/{name}"), file_name: name.to_string(), request_id }
}

fn listing() -> Vec<DirItem> {
    vec![item("a.png", 10), item("b.png", 11), item("c.png", 12), item("d.png", 13)]
}

fn listed() -> Directory {
    let mut dir = Directory::new();
    dir.change_directory(&"/pictures".to_string());
    dir.update_directory(listing());
    dir
}

#[test]
fn new_directory_is_closed() {
    let dir = Directory::new();
    assert_eq!(dir.path(), "");
    assert_eq!(dir.image_count(), None);
    assert_eq!(dir.curr_img_index(), None);
    assert!(dir.curr_descriptor().is_none());
    assert_eq!(dir.curr_filename(), None);
    assert!(dir.image_by_index(0).is_none());
    assert_eq!(dir.index_of_request(10), None);
}

#[test]
fn opened_directory_waits_for_its_listing() {
    let mut dir = Directory::new();
    dir.change_directory(&"/pictures".to_string());
    assert_eq!(dir.path(), "/pictures");
    assert_eq!(dir.image_count(), None);
    assert_eq!(dir.curr_img_index(), None);
    dir.update_directory(listing());
    assert_eq!(dir.image_count(), Some(4));
    assert_eq!(dir.curr_img_index(), Some(0));
    assert_eq!(dir.curr_filename(), Some("a.png".to_string()));
    assert_eq!(dir.curr_descriptor(), Some(&item("a.png", 10)));
    assert_eq!(dir.image_by_index(2), Some(&item("c.png", 12)));
    assert!(dir.image_by_index(4).is_none());
}

#[test]
fn opening_the_open_directory_keeps_the_listing() {
    let mut dir = listed();
    dir.set_curr_img_index(2).unwrap();
    dir.change_directory(&"/pictures".to_string());
    assert_eq!(dir.image_count(), Some(4));
    assert_eq!(dir.curr_img_index(), Some(2));
    dir.change_directory(&"/other".to_string());
    assert_eq!(dir.path(), "/other");
    assert_eq!(dir.image_count(), None);
    assert_eq!(dir.curr_img_index(), None);
}

#[test]
fn empty_listing_has_no_current_file() {
    let mut dir = Directory::new();
    dir.change_directory(&"/pictures".to_string());
    dir.update_directory(Vec::new());
    assert_eq!(dir.image_count(), Some(0));
    assert_eq!(dir.curr_img_index(), None);
    assert!(dir.curr_descriptor().is_none());
    dir.jump_to_next();
    dir.jump_to_prev();
    assert_eq!(dir.curr_img_index(), None);
    assert_eq!(dir.set_curr_img_index(0), Err(DirError::IndexOutOfRange));
}

#[test]
fn selected_file_is_current_once_listed() {
    let mut dir = Directory::new();
    assert_eq!(
        dir.change_directory_with_filename(&"/pictures".to_string(), &"c.png".to_string()),
        Ok(())
    );
    assert_eq!(dir.curr_img_index(), None);
    dir.update_directory(listing());
    assert_eq!(dir.curr_img_index(), Some(2));
    assert_eq!(dir.curr_filename(), Some("c.png".to_string()));
}

#[test]
fn selecting_in_a_listed_directory_moves_at_once() {
    let mut dir = listed();
    assert_eq!(
        dir.change_directory_with_filename(&"/pictures".to_string(), &"d.png".to_string()),
        Ok(())
    );
    assert_eq!(dir.curr_img_index(), Some(3));
    assert_eq!(
        dir.change_directory_with_filename(&"/pictures".to_string(), &"x.png".to_string()),
        Err(DirError::FileNotFound)
    );
    assert_eq!(dir.curr_img_index(), Some(3));
    assert_eq!(dir.image_count(), Some(4));
}

#[test]
fn set_index_checks_the_listing() {
    let mut dir = Directory::new();
    assert_eq!(dir.set_curr_img_index(0), Err(DirError::NotListed));
    let mut dir = listed();
    assert_eq!(dir.set_curr_img_index(3), Ok(()));
    assert_eq!(dir.curr_img_index(), Some(3));
    assert_eq!(dir.set_curr_img_index(4), Err(DirError::IndexOutOfRange));
    assert_eq!(dir.curr_img_index(), Some(3));
}

#[test]
fn jumps_wrap_around_the_ends() {
    let mut dir = listed();
    dir.jump_to_prev();
    assert_eq!(dir.curr_img_index(), Some(3));
    dir.jump_to_next();
    assert_eq!(dir.curr_img_index(), Some(0));
    dir.jump_to_next();
    dir.jump_to_next();
    assert_eq!(dir.curr_img_index(), Some(2));
    dir.jump_to_prev();
    assert_eq!(dir.curr_img_index(), Some(1));
}

#[test]
fn jumps_in_a_listing_of_one_stay() {
    let mut dir = Directory::new();
    dir.change_directory(&"/pictures".to_string());
    dir.update_directory(vec![item("only.png", 1)]);
    dir.jump_to_next();
    assert_eq!(dir.curr_img_index(), Some(0));
    dir.jump_to_prev();
    assert_eq!(dir.curr_img_index(), Some(0));
}

#[test]
fn update_keeps_the_current_file_by_name() {
    let mut dir = listed();
    dir.set_curr_img_index(2).unwrap();
    dir.update_directory(vec![item("0.png", 20), item("a.png", 21), item("b.png", 22), item("c.png", 23)]);
    assert_eq!(dir.curr_img_index(), Some(3));
    assert_eq!(dir.curr_filename(), Some("c.png".to_string()));
}

#[test]
fn update_keeps_the_index_if_the_file_is_gone() {
    let mut dir = listed();
    dir.set_curr_img_index(2).unwrap();
    dir.update_directory(vec![item("a.png", 10), item("b.png", 11), item("d.png", 13)]);
    assert_eq!(dir.curr_img_index(), Some(2));
    assert_eq!(dir.curr_filename(), Some("d.png".to_string()));
}

#[test]
fn update_goes_to_the_first_file_if_the_index_is_gone() {
    let mut dir = listed();
    dir.set_curr_img_index(3).unwrap();
    dir.update_directory(vec![item("a.png", 10), item("b.png", 11)]);
    assert_eq!(dir.curr_img_index(), Some(0));
}

#[test]
fn request_is_found_by_its_id() {
    let dir = listed();
    assert_eq!(dir.index_of_request(10), Some(0));
    assert_eq!(dir.index_of_request(13), Some(3));
    assert_eq!(dir.index_of_request(14), None);
}

#[test]
fn cloned_item_is_the_same_item() {
    let first = item("a.png", 1);
    assert_eq!(first.clone(), first);
}
