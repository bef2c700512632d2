use housing_dashboard::news::load_news;
use housing_dashboard::templates::housing_company;

#[test]
fn load_news_lists_three_notices() {
    let news = load_news();
    assert_eq!(news.len(), 3);
    assert_eq!(news[0].external_link.as_deref(), Some("https://example.com/news1"));
    assert_eq!(news[0].heading, "News Heading 1");
    assert_eq!(news[0].content, "This is the **content** of the first news item.");
    assert_eq!(news[0].of_type, "info");
    assert_eq!(news[1].external_link.as_deref(), Some("https://example.com/news2"));
    assert_eq!(news[1].heading, "Elevator Maintenance");
    assert_eq!(news[1].content, "The elevator will be out of service on Monday for maintenance.");
    assert_eq!(news[1].of_type, "alert");
    assert_eq!(news[2].external_link.as_deref(), Some("https://example.com/news2"));
    assert_eq!(news[2].heading, "Board Meeting");
    assert_eq!(
        news[2].content,
        "A board meeting was held 1st of january. The full newsletter is available in the portal."
    );
    assert_eq!(news[2].of_type, "board");
}

#[test]
fn housing_company_is_portus_novus() {
    let company = housing_company();
    assert_eq!(company.name, "Portus Novus");
    assert_eq!(company.address, "Capellanranta 3 D");
}
