use bracket_results::page::Page;
use bracket_results::redirects::Redirects;
use bracket_results::roster::{
    get_teams_in_tournament, holds_id, player_of_row, read_card, read_card_at, read_cards,
    team_cards,
    team_of_card, teams_from, CardFacts, RowFacts,
};
use bracket_results::team::Team;

fn some(value: &str) -> Option<String> {
    Some(value.to_string())
}

fn row(seat: Option<&str>, player: Option<&str>) -> RowFacts {
    RowFacts { seat: seat.map(|s| s.to_string()), player: player.map(|p| p.to_string()) }
}

fn card(title: &str, link: &str, rows: &str) -> String {
    format!(
        "<div class=\"teamcard\"><center><b><a href=\"{}\">{}</a></b></center>\
         <div class=\"teamcard-inner\"><table class=\"table\">{}</table></div></div>",
        link, title, rows
    )
}

fn alpha_rows() -> &'static str {
    "<tr><th>1</th><td><a href=\"/flag\"><img src=\"f.png\"></a> <a href=\"/p/Ann\">Ann</a></td></tr>\
     <tr><th>2</th><td><a href=\"/p/Bob\">Bob</a></td></tr>\
     <tr><th>S</th><td><a href=\"/p/Sub\">Sub</a></td></tr>\
     <tr><th>4</th><td><a href=\"/p/Dee\">Dee</a></td></tr>\
     <tr><th>3</th><td><a href=\"/p/Cy\">Cy</a></td></tr>\
     <tr><th>C</th><td><a href=\"/p/Coach\">Coach</a></td></tr>"
}

fn followed() -> Redirects {
    Redirects { entries: vec![("/rl/Alpha".to_string(), "https://site/rl/Alpha".to_string())] }
}

#[test]
fn card_facts_are_read_from_the_markup() {
    let page = Page::parse(&card("Alpha", "/rl/Alpha", alpha_rows()));
    let found = team_cards(&page);
    assert_eq!(found.len(), 1);
    let facts = read_card(&page, found[0]);
    assert_eq!(facts.name, some("Alpha"));
    assert_eq!(facts.link, some("/rl/Alpha"));
    let rows = facts.rows.unwrap();
    assert_eq!(rows.len(), 6);
    assert_eq!(rows[0].seat, some("1"));
    assert_eq!(rows[0].player, some("Ann"));
    assert_eq!(rows[2].seat, some("S"));
    assert_eq!(rows[2].player, some("Sub"));
    assert_eq!(rows[3].seat, some("4"));
    assert_eq!(rows[5].player, some("Coach"));
}

#[test]
fn roster_drops_rows_of_substitutes_and_coaches() {
    let page = Page::parse(&card("Alpha", "/rl/Alpha", alpha_rows()));
    let teams = get_teams_in_tournament(&page, &followed());
    assert_eq!(teams.len(), 1);
    assert_eq!(teams[0].name, "Alpha");
    assert_eq!(teams[0].id, "https://site/rl/Alpha");
    assert_eq!(teams[0].players, vec!["Ann".to_string(), "Bob".to_string(), "Cy".to_string()]);
}

#[test]
fn player_is_not_taken_from_an_anchor_that_wraps_an_image() {
    let rows = "<tr><th>1</th><td><a href=\"/a\"><img src=\"x.png\"></a><a href=\"/b\"><span><img src=\"y.png\"></span>Deep</a><a href=\"/c\">Plain</a></td></tr>\
                <tr><th>2</th><td><a href=\"/a\"><img src=\"x.png\"></a></td></tr>";
    let page = Page::parse(&card("Alpha", "/rl/Alpha", rows));
    let facts = read_card(&page, team_cards(&page)[0]);
    let rows = facts.rows.unwrap();
    // Only a child that is an image counts: the second anchor holds its image deeper.
    assert_eq!(rows[0].player, some("Deep"));
    assert_eq!(rows[1].player, None);
    let teams = get_teams_in_tournament(&page, &followed());
    assert_eq!(teams[0].players, vec!["Deep".to_string()]);
}

#[test]
fn seat_decides_whether_a_row_counts() {
    assert_eq!(player_of_row(&row(Some("1"), Some("Ann"))), some("Ann"));
    assert_eq!(player_of_row(&row(Some("3"), Some("Cy"))), some("Cy"));
    assert_eq!(player_of_row(&row(Some("0"), Some("Zed"))), some("Zed"));
    assert_eq!(player_of_row(&row(Some("+2"), Some("Bob"))), some("Bob"));
    assert_eq!(player_of_row(&row(Some("4"), Some("Dee"))), None);
    assert_eq!(player_of_row(&row(Some("255"), Some("Dee"))), None);
    assert_eq!(player_of_row(&row(Some("256"), Some("Dee"))), None);
    assert_eq!(player_of_row(&row(Some("S"), Some("Sub"))), None);
    assert_eq!(player_of_row(&row(Some(" 1"), Some("Ann"))), None);
    assert_eq!(player_of_row(&row(Some(""), Some("Ann"))), None);
    assert_eq!(player_of_row(&row(None, Some("Ann"))), None);
    assert_eq!(player_of_row(&row(Some("1"), None)), None);
}

#[test]
fn team_keeps_at_most_three_players() {
    let facts = CardFacts {
        name: some("Alpha"),
        link: some("/rl/Alpha"),
        rows: Some(vec![
            row(Some("1"), Some("Ann")),
            row(Some("x"), Some("Sub")),
            row(Some("1"), Some("Bob")),
            row(Some("2"), None),
            row(Some("3"), Some("Cy")),
            row(Some("0"), Some("Dee")),
            row(Some("2"), Some("Eve")),
        ]),
    };
    let team = team_of_card(&facts, &followed()).unwrap();
    assert_eq!(team.players, vec!["Ann".to_string(), "Bob".to_string(), "Cy".to_string()]);
    assert_eq!(team.id, "https://site/rl/Alpha");
    assert_eq!(team.name, "Alpha");
}

#[test]
fn team_may_have_fewer_than_three_players() {
    let facts = CardFacts {
        name: some("Alpha"),
        link: some("/rl/Unfollowed"),
        rows: Some(vec![row(Some("2"), Some("Bob")), row(Some("9"), Some("Sub"))]),
    };
    let team = team_of_card(&facts, &followed()).unwrap();
    assert_eq!(team.players, vec!["Bob".to_string()]);
    assert_eq!(team.id, "/rl/Unfollowed");
    let empty = CardFacts { name: some("Alpha"), link: some("/x"), rows: Some(vec![]) };
    assert_eq!(team_of_card(&empty, &followed()).unwrap().players, Vec::<String>::new());
}

#[test]
fn card_without_title_link_or_table_shows_no_team() {
    let rows = || Some(vec![row(Some("1"), Some("Ann"))]);
    let no_name = CardFacts { name: None, link: some("/rl/Alpha"), rows: rows() };
    let no_link = CardFacts { name: some("Alpha"), link: None, rows: rows() };
    let no_rows = CardFacts { name: some("Alpha"), link: some("/rl/Alpha"), rows: None };
    assert_eq!(team_of_card(&no_name, &followed()), None);
    assert_eq!(team_of_card(&no_link, &followed()), None);
    assert_eq!(team_of_card(&no_rows, &followed()), None);
}

#[test]
fn cards_without_a_team_are_passed_over_on_the_page() {
    let markup = format!(
        "{}{}{}{}",
        "<div class=\"teamcard\"><center><b>No link</b></center><div class=\"teamcard-inner\"><table class=\"table\"></table></div></div>",
        "<div class=\"teamcard\"><center><b><a>No target</a></b></center><div class=\"teamcard-inner\"><table class=\"table\"></table></div></div>",
        "<div class=\"teamcard\"><center><b><a href=\"/rl/NoTable\">No table</a></b></center><div class=\"teamcard-inner\"></div></div>",
        card("Beta", "/rl/Beta", "<tr><th>1</th><td><a href=\"/p/Bea\">Bea</a></td></tr>"),
    );
    let page = Page::parse(&markup);
    let cards = read_cards(&page);
    assert_eq!(cards.len(), 4);
    assert_eq!(cards[0].name, None);
    assert_eq!(cards[1].name, some("No target"));
    assert_eq!(cards[1].link, None);
    assert!(cards[2].rows.is_none());
    let teams = get_teams_in_tournament(&page, &Redirects::new());
    assert_eq!(teams.len(), 1);
    assert_eq!(teams[0].name, "Beta");
    assert_eq!(teams[0].id, "/rl/Beta");
    assert_eq!(teams[0].players, vec!["Bea".to_string()]);
}

#[test]
fn roster_holds_each_identity_once() {
    let first = CardFacts { name: some("Alpha"), link: some("/rl/Alpha"), rows: Some(vec![row(Some("1"), Some("Ann"))]) };
    let second = CardFacts { name: some("Beta"), link: some("/rl/Beta"), rows: Some(vec![]) };
    let again = CardFacts { name: some("Alpha B"), link: some("https://site/rl/Alpha"), rows: Some(vec![]) };
    let teams = teams_from(&vec![first, second, again], &followed());
    assert_eq!(teams.len(), 2);
    assert_eq!(teams[0].name, "Alpha");
    assert_eq!(teams[0].players, vec!["Ann".to_string()]);
    assert_eq!(teams[1].name, "Beta");
}

#[test]
fn holds_id_looks_at_ids_alone() {
    let teams = vec![Team { name: "Alpha".to_string(), id: "/rl/Alpha".to_string(), players: vec![] }];
    assert!(holds_id(&teams, "/rl/Alpha"));
    assert!(!holds_id(&teams, "/rl/alpha"));
    assert!(!holds_id(&teams, "Alpha"));
    assert!(!holds_id(&vec![], "/rl/Alpha"));
}

#[test]
fn no_card_is_read_beyond_the_nodes_of_a_page() {
    let page = Page::parse(&card("Alpha", "/rl/Alpha", alpha_rows()));
    assert!(read_card_at(&page, page.node_count()).is_none());
    let facts = read_card_at(&page, team_cards(&page)[0]).unwrap();
    assert_eq!(facts.name, some("Alpha"));
}
