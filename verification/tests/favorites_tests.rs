use dashboard_core::favorites::FavoriteItem;
use dashboard_core::favorites::FavoritesData;
use dashboard_core::favorites::add_favorite_entry;
use dashboard_core::favorites::remove_favorite_entry;
use dashboard_core::favorites::reorder_favorite_entries;

fn item(path: &str, name: &str) -> FavoriteItem {
    FavoriteItem {
        path: path.to_string(),
        name: name.to_string(),
        added_at: "2024-01-01T12:00:00.000+0900".to_string(),
    }
}

#[test]
fn test_favorites_data_default() {
    let data = FavoritesData::default();
    assert!(data.favorites.is_empty());
}

#[test]
fn adding_appends_and_rejects_duplicates() {
    let mut data = FavoritesData::default();
    let added = add_favorite_entry(
        &mut data,
        "/home/user/.dashboard/NOTES.md".to_string(),
        "NOTES.md".to_string(),
        "2024-01-01T12:00:00.000+0900".to_string(),
    )
    .unwrap();
    assert_eq!(added.path, "/home/user/.dashboard/NOTES.md");
    assert_eq!(added.name, "NOTES.md");
    assert_eq!(data.favorites.len(), 1);
    let again = add_favorite_entry(
        &mut data,
        "/home/user/.dashboard/NOTES.md".to_string(),
        "NOTES.md".to_string(),
        "2024-01-02T12:00:00.000+0900".to_string(),
    );
    assert_eq!(again.unwrap_err(), "Already in favorites: NOTES.md");
    assert_eq!(data.favorites.len(), 1);
}

#[test]
fn removal_deletes_matches_and_reports_misses() {
    let mut data = FavoritesData::default();
    data.favorites.push(item("/a", "a"));
    data.favorites.push(item("/b", "b"));
    assert!(remove_favorite_entry(&mut data, "/a").is_ok());
    assert_eq!(data.favorites.len(), 1);
    assert_eq!(data.favorites[0].path, "/b");
    let missing = remove_favorite_entry(&mut data, "/a");
    assert_eq!(missing.unwrap_err(), "Not found in favorites: /a");
    assert_eq!(data.favorites.len(), 1);
}

#[test]
fn reordering_pulls_named_paths_first_and_keeps_the_rest() {
    let mut data = FavoritesData::default();
    data.favorites.push(item("/a", "a"));
    data.favorites.push(item("/b", "b"));
    data.favorites.push(item("/c", "c"));
    let order = vec!["/c".to_string(), "/a".to_string()];
    reorder_favorite_entries(&mut data, &order);
    let paths: Vec<&str> = data.favorites.iter().map(|f| f.path.as_str()).collect();
    assert_eq!(paths, vec!["/c", "/a", "/b"]);
}

#[test]
fn reordering_ignores_unknown_paths() {
    let mut data = FavoritesData::default();
    data.favorites.push(item("/a", "a"));
    data.favorites.push(item("/b", "b"));
    let order = vec!["/nope".to_string(), "/b".to_string()];
    reorder_favorite_entries(&mut data, &order);
    let paths: Vec<&str> = data.favorites.iter().map(|f| f.path.as_str()).collect();
    assert_eq!(paths, vec!["/b", "/a"]);
}
