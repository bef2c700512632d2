use vstd::prelude::*;

verus! {

/// A notice for the residents.
#[derive(Clone, Debug)]
pub struct NewsItem {
    pub external_link: Option<String>,
    pub heading: String,
    pub content: String,
    pub of_type: String,
}

/// What a notice shows.
pub struct NewsItemView {
    pub external_link: Option<Seq<char>>,
    pub heading: Seq<char>,
    pub content: Seq<char>,
    pub of_type: Seq<char>,
}

impl View for NewsItem {
    type V = NewsItemView;

    open spec fn view(&self) -> NewsItemView {
        NewsItemView {
            external_link: match self.external_link {
                Some(link) => Some(link@),
                None => None,
            },
            heading: self.heading@,
            content: self.content@,
            of_type: self.of_type@,
        }
    }
}

/// The notices that the dashboard shows, in order.
pub open spec fn news_spec() -> Seq<NewsItemView> {
    seq![
        NewsItemView {
            external_link: Some("https://example.com/news1"@),
            heading: "News Heading 1"@,
            content: "This is the **content** of the first news item."@,
            of_type: "info"@,
        },
        NewsItemView {
            external_link: Some("https://example.com/news2"@),
            heading: "Elevator Maintenance"@,
            content: "The elevator will be out of service on Monday for maintenance."@,
            of_type: "alert"@,
        },
        NewsItemView {
            external_link: Some("https://example.com/news2"@),
            heading: "Board Meeting"@,
            content: "A board meeting was held 1st of january. The full newsletter is available in the portal."@,
            of_type: "board"@,
        },
    ]
}

fn news_item(link: &str, heading: &str, content: &str, of_type: &str) -> (r: NewsItem)
    ensures
        r@ == (NewsItemView { external_link: Some(link@), heading: heading@, content: content@, of_type: of_type@ }),
{
    NewsItem {
        external_link: Some(String::from_str(link)),
        heading: String::from_str(heading),
        content: String::from_str(content),
        of_type: String::from_str(of_type),
    }
}

/// The notices for the residents.
pub fn load_news() -> (r: Vec<NewsItem>)
    ensures
        r@.map_values(|n: NewsItem| n@) == news_spec(),
{
    let mut news: Vec<NewsItem> = Vec::new();
    news.push(news_item(
        "https://example.com/news1",
        "News Heading 1",
        "This is the **content** of the first news item.",
        "info",
    ));
    news.push(news_item(
        "https://example.com/news2",
        "Elevator Maintenance",
        "The elevator will be out of service on Monday for maintenance.",
        "alert",
    ));
    news.push(news_item(
        "https://example.com/news2",
        "Board Meeting",
        "A board meeting was held 1st of january. The full newsletter is available in the portal.",
        "board",
    ));
    assert(news@.map_values(|n: NewsItem| n@) =~= news_spec());
    news
}

} // verus!
