use chat_core::config::Config;

#[test]
fn baseline_configuration() {
    let c = Config::load();
    assert_eq!(c.host, "127.0.0.1");
    assert_eq!(c.port, 8080);
    assert_eq!(c.db_file, "./database.sqlite");
    assert_eq!(c.site_domain, "");
    assert_eq!(c.site_author, "");
    assert_eq!(c.author_twitter, "");
    assert_eq!(c.author_email, "");
    assert_eq!(c.author_github_name, "");
}
