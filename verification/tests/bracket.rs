use bracket_results::bracket::{
    complete, extract_from, find_side, read_indicators, ExtractionOutcome, Match, PopupFacts,
};
use bracket_results::calendar::{reference_cutoff, Date};
use bracket_results::page::Page;
use bracket_results::pairing::{Indicator, Side};
use bracket_results::popup::{extract, extract_at, popups, read_popup, read_popup_at, read_popups};
use bracket_results::redirects::Redirects;
use bracket_results::team::Team;

fn club(name: &str, id: &str) -> Team {
    Team { name: name.to_string(), id: id.to_string(), players: vec![] }
}

fn clubs() -> Vec<Team> {
    vec![club("Alpha", "https://site/rl/Alpha"), club("Beta", "https://site/rl/Beta")]
}

fn followed() -> Redirects {
    Redirects {
        entries: vec![
            ("/rl/Alpha".to_string(), "https://site/rl/Alpha".to_string()),
            ("/rl/Beta".to_string(), "https://site/rl/Beta".to_string()),
        ],
    }
}

fn text(value: &str) -> Option<String> {
    Some(value.to_string())
}

fn side(class: &str, name: Option<&str>, link: Option<&str>) -> String {
    let label = match name {
        Some(name) => format!(" data-highlightingclass=\"{}\"", name),
        None => String::new(),
    };
    let anchor = match link {
        Some(link) => format!("<a href=\"{}\">shown</a>", link),
        None => "shown".to_string(),
    };
    format!(
        "<div class=\"{}\"><span{}><span class=\"team-template-text\">{}</span></span></div>",
        class, label, anchor
    )
}

fn entry(left: String, right: String, timer: Option<&str>, markers: &[(&str, Option<&str>)]) -> String {
    let time = match timer {
        Some(timer) => format!(
            "<div class=\"bracket-popup-body-time\"><span class=\"timer-object\">{}</span></div>",
            timer
        ),
        None => String::new(),
    };
    let mut scores = String::new();
    for (shown, style) in markers {
        match style {
            Some(style) => scores.push_str(&format!("<span class=\"div\" style=\"{}\">{}</span>", style, shown)),
            None => scores.push_str(&format!("<span class=\"div\">{}</span>", shown)),
        }
    }
    format!(
        "<div class=\"bracket-popup\"><div class=\"bracket-popup-header\">{}{}</div>\
         <div class=\"bracket-popup-body\">{}<div class=\"games\">{}</div></div></div>",
        left, right, time, scores
    )
}

fn played() -> String {
    entry(
        side("bracket-popup-header-left", Some("Alpha"), Some("/rl/Alpha")),
        side("bracket-popup-header-right", Some("Beta"), Some("/rl/Beta")),
        Some("January 5, 2019 - 18:00 UTC"),
        &[
            ("3", Some("float:left")),
            ("1", Some("float:right")),
            ("2", Some("float:left")),
            ("0", Some("float:right")),
        ],
    )
}

fn only(markup: &str) -> (Page, usize) {
    let page = Page::parse(markup);
    let found = popups(&page);
    assert_eq!(found.len(), 1);
    (page, found[0])
}

fn key_set(game: &bracket_results::game::Game) -> Vec<String> {
    let mut keys: Vec<String> = game.scores.iter().map(|entry| entry.0.id.clone()).collect();
    keys.sort();
    keys.dedup();
    keys
}

fn team_set(found: &Match) -> Vec<String> {
    let mut keys: Vec<String> = found.teams.iter().map(|team| team.id.clone()).collect();
    keys.sort();
    keys.dedup();
    keys
}

#[test]
fn popup_facts_are_read_from_the_markup() {
    let (page, popup) = only(&played());
    let facts = read_popup(&page, popup);
    assert!(facts.header);
    assert_eq!(facts.left_name, text("Alpha"));
    assert_eq!(facts.left_link, text("/rl/Alpha"));
    assert_eq!(facts.right_name, text("Beta"));
    assert_eq!(facts.right_link, text("/rl/Beta"));
    assert_eq!(facts.timer, text("January 5, 2019 - 18:00 UTC"));
    assert_eq!(
        facts.markers,
        vec![
            ("3".to_string(), text("float:left")),
            ("1".to_string(), text("float:right")),
            ("2".to_string(), text("float:left")),
            ("0".to_string(), text("float:right")),
        ]
    );
}

#[test]
fn played_popup_gives_a_match() {
    let (page, popup) = only(&played());
    let teams = clubs();
    let found = extract(&page, popup, &teams, &followed(), reference_cutoff()).unwrap();
    assert_eq!(found.date, Date { year: 2019, month: 1, day: 5 });
    assert_eq!(found.teams, clubs());
    assert_eq!(found.games.len(), 2);
    assert_eq!(found.games[0].score_of(&teams[0]), Some(3));
    assert_eq!(found.games[0].score_of(&teams[1]), Some(1));
    assert_eq!(found.games[1].score_of(&teams[0]), Some(2));
    assert_eq!(found.games[1].score_of(&teams[1]), Some(0));
}

#[test]
fn every_game_holds_exactly_the_teams_of_its_match() {
    let (page, popup) = only(&played());
    let found = extract(&page, popup, &clubs(), &followed(), reference_cutoff()).unwrap();
    assert_eq!(found.teams.len(), 2);
    for game in &found.games {
        assert_eq!(key_set(game), team_set(&found));
    }
}

#[test]
fn popup_without_team_anchors_after_the_cutoff_is_not_yet_played() {
    let markup = entry(
        side("bracket-popup-header-left", None, None),
        side("bracket-popup-header-right", None, None),
        Some("January 1, 2025 - 12:00 UTC"),
        &[],
    );
    let (page, popup) = only(&markup);
    let outcome = extract(&page, popup, &clubs(), &followed(), reference_cutoff());
    assert_eq!(
        outcome.unwrap_err(),
        ExtractionOutcome::NotYetPlayed { date: Date { year: 2025, month: 1, day: 1 } }
    );
}

#[test]
fn popup_without_a_team_anchor_before_the_cutoff_has_failed() {
    let markup = entry(
        side("bracket-popup-header-left", Some("Alpha"), Some("/rl/Alpha")),
        side("bracket-popup-header-right", Some("Beta"), None),
        Some("January 5, 2019 - 18:00 UTC"),
        &[("3", Some("float:left")), ("1", Some("float:right"))],
    );
    let (page, popup) = only(&markup);
    let outcome = extract(&page, popup, &clubs(), &followed(), reference_cutoff());
    assert_eq!(
        outcome.unwrap_err(),
        ExtractionOutcome::ExtractionFailed { partial_date: Some(Date { year: 2019, month: 1, day: 5 }) }
    );
}

#[test]
fn popup_on_the_cutoff_day_has_failed() {
    let markup = entry(
        side("bracket-popup-header-left", None, None),
        side("bracket-popup-header-right", None, None),
        Some("May 30, 2019 - 12:00 UTC"),
        &[],
    );
    let (page, popup) = only(&markup);
    let outcome = extract(&page, popup, &clubs(), &followed(), reference_cutoff());
    assert_eq!(
        outcome.unwrap_err(),
        ExtractionOutcome::ExtractionFailed { partial_date: Some(Date { year: 2019, month: 5, day: 30 }) }
    );
}

#[test]
fn popup_without_a_date_has_failed() {
    let markup = entry(
        side("bracket-popup-header-left", Some("Alpha"), Some("/rl/Alpha")),
        side("bracket-popup-header-right", Some("Beta"), Some("/rl/Beta")),
        None,
        &[("3", Some("float:left")), ("1", Some("float:right"))],
    );
    let (page, popup) = only(&markup);
    let outcome = extract(&page, popup, &clubs(), &followed(), reference_cutoff());
    assert_eq!(outcome.unwrap_err(), ExtractionOutcome::ExtractionFailed { partial_date: None });
}

#[test]
fn popup_with_an_unreadable_date_has_failed() {
    let markup = entry(
        side("bracket-popup-header-left", Some("Alpha"), Some("/rl/Alpha")),
        side("bracket-popup-header-right", Some("Beta"), Some("/rl/Beta")),
        Some("To be announced"),
        &[],
    );
    let (page, popup) = only(&markup);
    let outcome = extract(&page, popup, &clubs(), &followed(), reference_cutoff());
    assert_eq!(outcome.unwrap_err(), ExtractionOutcome::ExtractionFailed { partial_date: None });
}

#[test]
fn popup_with_an_unknown_team_has_failed() {
    let markup = entry(
        side("bracket-popup-header-left", Some("Alpha"), Some("/rl/Alpha")),
        side("bracket-popup-header-right", Some("Delta"), Some("/rl/Delta")),
        Some("January 5, 2019 - 18:00 UTC"),
        &[],
    );
    let (page, popup) = only(&markup);
    let outcome = extract(&page, popup, &clubs(), &followed(), reference_cutoff());
    assert_eq!(
        outcome.unwrap_err(),
        ExtractionOutcome::ExtractionFailed { partial_date: Some(Date { year: 2019, month: 1, day: 5 }) }
    );
}

#[test]
fn popup_without_a_header_is_a_placeholder() {
    let markup = "<div class=\"bracket-popup\"><div class=\"bracket-popup-body\">\
                  <div class=\"bracket-popup-body-time\"><span class=\"timer-object\">January 1, 2025 - 12:00</span></div>\
                  </div></div>";
    let (page, popup) = only(markup);
    let facts = read_popup(&page, popup);
    assert!(!facts.header);
    assert_eq!(facts.left_name, None);
    assert_eq!(facts.timer, text("January 1, 2025 - 12:00"));
    let outcome = extract(&page, popup, &clubs(), &followed(), reference_cutoff());
    assert_eq!(outcome.unwrap_err(), ExtractionOutcome::Placeholder);
}

#[test]
fn popup_without_a_body_has_no_markers_and_no_timer() {
    let markup = format!(
        "<div class=\"bracket-popup\"><div class=\"bracket-popup-header\">{}{}</div></div>",
        side("bracket-popup-header-left", Some("Alpha"), Some("/rl/Alpha")),
        side("bracket-popup-header-right", Some("Beta"), Some("/rl/Beta")),
    );
    let (page, popup) = only(&markup);
    let facts = read_popup(&page, popup);
    assert!(facts.header);
    assert_eq!(facts.timer, None);
    assert_eq!(facts.markers, vec![]);
    assert_eq!(facts.left_link, text("/rl/Alpha"));
}

#[test]
fn team_is_found_by_name_when_the_link_is_not_in_the_roster() {
    let markup = entry(
        side("bracket-popup-header-left", Some("ALPHA"), Some("/rl/Alpha_(old)")),
        side("bracket-popup-header-right", Some("Beta"), Some("/rl/Beta")),
        Some("January 5, 2019 - 18:00 UTC"),
        &[],
    );
    let (page, popup) = only(&markup);
    let found = extract(&page, popup, &clubs(), &followed(), reference_cutoff()).unwrap();
    assert_eq!(found.teams, clubs());
    assert_eq!(found.games.len(), 0);
}

#[test]
fn cutoff_is_a_parameter() {
    let markup = entry(
        side("bracket-popup-header-left", None, None),
        side("bracket-popup-header-right", None, None),
        Some("January 5, 2019 - 18:00 UTC"),
        &[],
    );
    let (page, popup) = only(&markup);
    let early = Date { year: 2019, month: 1, day: 4 };
    let outcome = extract(&page, popup, &clubs(), &followed(), early);
    assert_eq!(
        outcome.unwrap_err(),
        ExtractionOutcome::NotYetPlayed { date: Date { year: 2019, month: 1, day: 5 } }
    );
}

#[test]
fn markers_without_style_or_number_are_passed_over() {
    let markers = vec![
        ("3".to_string(), text("float:left")),
        ("x".to_string(), text("float:right")),
        ("4".to_string(), None),
        ("".to_string(), text("float:left")),
        ("300".to_string(), text("float:left")),
        ("1".to_string(), text("float:right")),
        ("7".to_string(), text("padding-left:2px")),
        ("9".to_string(), text("")),
    ];
    assert_eq!(
        read_indicators(&markers),
        vec![
            Indicator { score: 3, side: Side::Left },
            Indicator { score: 1, side: Side::Right },
            Indicator { score: 7, side: Side::Left },
            Indicator { score: 9, side: Side::Right },
        ]
    );
}

#[test]
fn side_without_a_link_has_no_team() {
    assert_eq!(find_side(&None, &text("Alpha"), &clubs(), &followed()), None);
}

#[test]
fn side_link_goes_through_the_redirects() {
    let found = find_side(&text("/rl/Beta"), &None, &clubs(), &followed()).unwrap();
    assert_eq!(found.name, "Beta");
    assert_eq!(find_side(&text("/rl/Beta"), &None, &clubs(), &Redirects::new()), None);
}

#[test]
fn completion_needs_all_five() {
    let cutoff = reference_cutoff();
    let date = Some(Date { year: 2019, month: 1, day: 5 });
    let failed = ExtractionOutcome::ExtractionFailed { partial_date: date };
    let alpha = club("Alpha", "/a");
    let beta = club("Beta", "/b");
    let none: Vec<Indicator> = vec![];
    let missing = [
        complete(&None, &text("Beta"), Some(alpha.clone()), Some(beta.clone()), date, &none, cutoff),
        complete(&text("Alpha"), &None, Some(alpha.clone()), Some(beta.clone()), date, &none, cutoff),
        complete(&text("Alpha"), &text("Beta"), None, Some(beta.clone()), date, &none, cutoff),
        complete(&text("Alpha"), &text("Beta"), Some(alpha.clone()), None, date, &none, cutoff),
    ];
    for outcome in missing {
        assert_eq!(outcome.unwrap_err(), failed);
    }
    let whole = complete(&text("Alpha"), &text("Beta"), Some(alpha.clone()), Some(beta.clone()), date, &none, cutoff);
    let found = whole.unwrap();
    assert_eq!(found.teams, vec![alpha, beta]);
    assert_eq!(found.date, Date { year: 2019, month: 1, day: 5 });
    assert_eq!(found.games.len(), 0);
}

#[test]
fn completion_pairs_the_indicators() {
    let alpha = club("Alpha", "/a");
    let beta = club("Beta", "/b");
    let shown = vec![
        Indicator { score: 3, side: Side::Left },
        Indicator { score: 5, side: Side::Left },
        Indicator { score: 1, side: Side::Right },
        Indicator { score: 4, side: Side::Right },
    ];
    let found = complete(
        &text("Alpha"),
        &text("Beta"),
        Some(alpha.clone()),
        Some(beta.clone()),
        Some(Date { year: 2018, month: 3, day: 9 }),
        &shown,
        reference_cutoff(),
    )
    .unwrap();
    assert_eq!(found.games.len(), 1);
    assert_eq!(found.games[0].score_of(&alpha), Some(5));
    assert_eq!(found.games[0].score_of(&beta), Some(1));
}

#[test]
fn extraction_from_facts_needs_no_page() {
    let facts = PopupFacts {
        header: true,
        left_name: text("Alpha"),
        left_link: text("/rl/Alpha"),
        right_name: text("Beta"),
        right_link: text("/rl/Beta"),
        timer: text("March 9, 2018 - 20:00"),
        markers: vec![("2".to_string(), text("right")), ("3".to_string(), text("left"))],
    };
    let teams = clubs();
    let found = extract_from(&facts, &teams, &followed(), reference_cutoff()).unwrap();
    assert_eq!(found.date, Date { year: 2018, month: 3, day: 9 });
    assert_eq!(found.games.len(), 1);
    assert_eq!(found.games[0].score_of(&teams[0]), Some(3));
    assert_eq!(found.games[0].score_of(&teams[1]), Some(2));
    let copy = found.clone();
    assert_eq!(copy.teams, found.teams);
    assert_eq!(copy.date, found.date);
    assert_eq!(copy.games.len(), 1);
}

#[test]
fn facts_without_header_are_a_placeholder_whatever_else_they_hold() {
    let facts = PopupFacts {
        header: false,
        left_name: text("Alpha"),
        left_link: text("/rl/Alpha"),
        right_name: text("Beta"),
        right_link: text("/rl/Beta"),
        timer: text("March 9, 2018 - 20:00"),
        markers: vec![],
    };
    let outcome = extract_from(&facts, &clubs(), &followed(), reference_cutoff());
    assert_eq!(outcome.unwrap_err(), ExtractionOutcome::Placeholder);
}

#[test]
fn markers_are_gathered_container_by_container() {
    let markup = "<div class=\"bracket-popup\"><div class=\"bracket-popup-header\"></div>\
                  <div class=\"bracket-popup-body\">\
                  <div><span class=\"div\" style=\"left\">1</span></div>\
                  <p><span class=\"div\" style=\"left\">8</span></p>\
                  <div><div><span class=\"div big\" style=\"right\">2</span></div></div>\
                  </div></div>";
    let (page, popup) = only(markup);
    let facts = read_popup(&page, popup);
    assert_eq!(
        facts.markers,
        vec![
            ("1".to_string(), text("left")),
            ("2".to_string(), text("right")),
            ("2".to_string(), text("right")),
        ]
    );
}

#[test]
fn popups_are_read_in_document_order() {
    let markup = format!("<html><body>{}{}</body></html>", played(), "<div class=\"bracket-popup\"></div>");
    let page = Page::parse(&markup);
    let all = read_popups(&page);
    assert_eq!(all.len(), 2);
    assert!(all[0].header);
    assert!(!all[1].header);
    assert_eq!(popups(&page).len(), 2);
    assert!(popups(&page)[0] < popups(&page)[1]);
    assert!(popups(&page)[1] < page.node_count());
}

#[test]
fn nothing_is_read_beyond_the_nodes_of_a_page() {
    let (page, popup) = only(&played());
    let count = page.node_count();
    assert!(page.holds(popup));
    assert!(page.holds(count - 1));
    assert!(!page.holds(count));
    assert!(read_popup_at(&page, count).is_none());
    assert!(extract_at(&page, count, &clubs(), &followed(), reference_cutoff()).is_none());
    let facts = read_popup_at(&page, popup).unwrap();
    assert_eq!(facts.left_name, text("Alpha"));
    let found = extract_at(&page, popup, &clubs(), &followed(), reference_cutoff()).unwrap().unwrap();
    assert_eq!(found.games.len(), 2);
}

#[test]
fn a_node_without_a_header_below_it_is_a_placeholder() {
    let page = Page::parse("<p>plain</p>");
    let last = page.node_count() - 1;
    let outcome = extract_at(&page, last, &clubs(), &followed(), reference_cutoff()).unwrap();
    assert_eq!(outcome.unwrap_err(), ExtractionOutcome::Placeholder);
}
