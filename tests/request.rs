use hn_buffer::request::{base_url, item_path, item_url, BASE_URL};

#[test]
fn item_path_writes_the_id_in_decimal() {
    assert_eq!(item_path(8863), "/v0/item/8863.json?print=pretty");
    assert_eq!(item_path(0), "/v0/item/0.json?print=pretty");
    assert_eq!(item_path(-3), "/v0/item/-3.json?print=pretty");
}

#[test]
fn item_url_resolves_against_the_service() {
    let base = base_url().unwrap();
    assert_eq!(base.as_str(), BASE_URL);
    let u = item_url(&base, 121003).unwrap();
    assert_eq!(u.as_str(), "https://hacker-news.firebaseio.com/v0/item/121003.json?print=pretty");
}
