use bracket_results::bracket::ExtractionOutcome;
use bracket_results::calendar::{reference_cutoff, Date};
use bracket_results::page::Page;
use bracket_results::redirects::Redirects;
use bracket_results::roster::get_teams_in_tournament;
use bracket_results::tournament::{
    get_matches_in_tournament, get_tournament, is_offline, links_of, matches_from, read_page,
    tournament_from, Event,
};

fn card(title: &str, link: &str, player: &str) -> String {
    format!(
        "<div class=\"teamcard\"><center><b><a href=\"{}\">{}</a></b></center>\
         <div class=\"teamcard-inner\"><table class=\"table\">\
         <tr><th>1</th><td><a href=\"/p/{}\">{}</a></td></tr></table></div></div>",
        link, title, player, player
    )
}

fn side(class: &str, name: &str, link: &str) -> String {
    format!(
        "<div class=\"{}\"><span data-highlightingclass=\"{}\"><span class=\"team-template-text\">\
         <a href=\"{}\">{}</a></span></span></div>",
        class, name, link, name
    )
}

fn entry(left: (&str, &str), right: (&str, &str), timer: &str, scores: &str) -> String {
    format!(
        "<div class=\"bracket-popup\"><div class=\"bracket-popup-header\">{}{}</div>\
         <div class=\"bracket-popup-body\"><div class=\"bracket-popup-body-time\">\
         <span class=\"timer-object\">{}</span></div><div class=\"games\">{}</div></div></div>",
        side("bracket-popup-header-left", left.0, left.1),
        side("bracket-popup-header-right", right.0, right.1),
        timer,
        scores
    )
}

fn mark(score: u8, style: &str) -> String {
    format!("<span class=\"div\" style=\"float:{}\">{}</span>", style, score)
}

fn markup(venue: &str) -> String {
    format!(
        "<html><body><div class=\"infobox-cell-2\">{}</div><div class=\"infobox-cell-2\">Offline</div>{}{}{}{}{}{}{}</body></html>",
        venue,
        card("Alpha", "/rl/Alpha", "Ann"),
        card("Beta", "/rl/Beta", "Bea"),
        card("Gamma", "/rl/Gamma", "Gus"),
        entry(("Alpha", "/rl/Alpha"), ("Beta", "/rl/Beta"), "January 5, 2019 - 18:00 UTC",
              &format!("{}{}{}{}", mark(3, "left"), mark(1, "right"), mark(0, "left"), mark(2, "right"))),
        "<div class=\"bracket-popup\"></div>",
        entry(("Gamma", "/rl/Gamma"), ("TBD", "/rl/TBD"), "June 9, 2019 - 18:00 UTC", ""),
        entry(("Beta", "/rl/Beta"), ("Delta", "/rl/Delta"), "January 6, 2019 - 18:00 UTC", ""),
    )
}

fn followed() -> Redirects {
    Redirects {
        entries: vec![
            ("/rl/Alpha".to_string(), "https://site/rl/Alpha".to_string()),
            ("/rl/Beta".to_string(), "https://site/rl/Beta".to_string()),
        ],
    }
}

#[test]
fn tournament_is_assembled_from_a_page() {
    let page = Page::parse(&markup("Offline"));
    let made = get_tournament(&page, &followed(), "Spring Cup".to_string(), reference_cutoff());
    let tournament = made.tournament;
    assert_eq!(tournament.name, "Spring Cup");
    assert!(tournament.lan);
    let ids: Vec<&str> = tournament.teams.iter().map(|team| team.id.as_str()).collect();
    assert_eq!(ids, vec!["https://site/rl/Alpha", "https://site/rl/Beta", "/rl/Gamma"]);
    assert_eq!(tournament.teams[2].players, vec!["Gus".to_string()]);
    assert_eq!(tournament.matches.len(), 1);
    let found = &tournament.matches[0];
    assert_eq!(found.date, Date { year: 2019, month: 1, day: 5 });
    assert_eq!(found.teams, vec![tournament.teams[0].clone(), tournament.teams[1].clone()]);
    assert_eq!(found.games.len(), 2);
    assert_eq!(found.games[0].score_of(&tournament.teams[0]), Some(3));
    assert_eq!(found.games[0].score_of(&tournament.teams[1]), Some(1));
    assert_eq!(found.games[1].score_of(&tournament.teams[0]), Some(0));
    assert_eq!(found.games[1].score_of(&tournament.teams[1]), Some(2));
}

#[test]
fn dropped_entries_are_reported() {
    let page = Page::parse(&markup("Offline"));
    let made = get_tournament(&page, &followed(), "Spring Cup".to_string(), reference_cutoff());
    assert_eq!(
        made.diagnostics,
        vec![
            ExtractionOutcome::NotYetPlayed { date: Date { year: 2019, month: 6, day: 9 } },
            ExtractionOutcome::ExtractionFailed { partial_date: Some(Date { year: 2019, month: 1, day: 6 }) },
        ]
    );
}

#[test]
fn every_entry_is_a_match_a_report_or_a_placeholder() {
    let page = Page::parse(&markup("Offline"));
    let facts = read_page(&page);
    let made = tournament_from(&facts, "Spring Cup".to_string(), &followed(), reference_cutoff());
    let placeholders = facts.popups.iter().filter(|popup| !popup.header).count();
    assert_eq!(placeholders, 1);
    assert_eq!(made.tournament.matches.len() + made.diagnostics.len() + placeholders, facts.popups.len());
}

#[test]
fn assembling_twice_gives_the_same_tournament() {
    let page = Page::parse(&markup("Online"));
    let first = get_tournament(&page, &followed(), "Spring Cup".to_string(), reference_cutoff());
    let second = get_tournament(&page, &followed(), "Spring Cup".to_string(), reference_cutoff());
    assert_eq!(format!("{:?}", first), format!("{:?}", second));
    assert_eq!(first.tournament.matches.len(), 1);
    let copy = first.tournament.clone();
    assert_eq!(format!("{:?}", copy), format!("{:?}", second.tournament));
}

#[test]
fn every_team_of_a_match_is_a_team_of_the_tournament() {
    let page = Page::parse(&markup("Offline"));
    let tournament = get_tournament(&page, &followed(), "Cup".to_string(), reference_cutoff()).tournament;
    for found in &tournament.matches {
        assert_eq!(found.teams.len(), 2);
        for team in &found.teams {
            assert!(tournament.teams.contains(team));
        }
        for game in &found.games {
            let mut keys: Vec<&str> = game.scores.iter().map(|entry| entry.0.id.as_str()).collect();
            let mut teams: Vec<&str> = found.teams.iter().map(|team| team.id.as_str()).collect();
            keys.sort();
            teams.sort();
            assert_eq!(keys, teams);
        }
    }
}

#[test]
fn venue_is_read_from_the_first_cell_only() {
    let online = Page::parse(&markup("Online"));
    assert_eq!(read_page(&online).venue, Some("Online".to_string()));
    assert!(!get_tournament(&online, &followed(), "Cup".to_string(), reference_cutoff()).tournament.lan);
    let none = Page::parse("<html><body><p>nothing</p></body></html>");
    assert_eq!(read_page(&none).venue, None);
    let made = get_tournament(&none, &followed(), "Cup".to_string(), reference_cutoff());
    assert!(!made.tournament.lan);
    assert_eq!(made.tournament.teams.len(), 0);
    assert_eq!(made.tournament.matches.len(), 0);
    assert_eq!(made.diagnostics, vec![]);
}

#[test]
fn offline_is_one_exact_word() {
    assert!(is_offline(&Some("Offline".to_string())));
    assert!(!is_offline(&Some("offline".to_string())));
    assert!(!is_offline(&Some("Offline ".to_string())));
    assert!(!is_offline(&Some("Online".to_string())));
    assert!(!is_offline(&Some(String::new())));
    assert!(!is_offline(&None));
}

#[test]
fn matches_are_looked_up_in_the_given_roster() {
    let page = Page::parse(&markup("Offline"));
    let teams = get_teams_in_tournament(&page, &Redirects::new());
    let found = get_matches_in_tournament(&page, &teams, &Redirects::new(), reference_cutoff());
    assert_eq!(found.matches.len(), 1);
    assert_eq!(found.matches[0].teams[0].id, "/rl/Alpha");
    assert_eq!(found.diagnostics.len(), 2);
    let without = get_matches_in_tournament(&page, &vec![], &Redirects::new(), reference_cutoff());
    assert_eq!(without.matches.len(), 0);
    assert_eq!(
        without.diagnostics,
        vec![
            ExtractionOutcome::ExtractionFailed { partial_date: Some(Date { year: 2019, month: 1, day: 5 }) },
            ExtractionOutcome::NotYetPlayed { date: Date { year: 2019, month: 6, day: 9 } },
            ExtractionOutcome::ExtractionFailed { partial_date: Some(Date { year: 2019, month: 1, day: 6 }) },
        ]
    );
}

#[test]
fn no_entries_give_no_matches() {
    let found = matches_from(&vec![], &vec![], &Redirects::new(), reference_cutoff());
    assert_eq!(found.matches.len(), 0);
    assert_eq!(found.diagnostics, vec![]);
}

#[test]
fn linked_paths_are_those_of_cards_then_entries() {
    let page = Page::parse(&markup("Offline"));
    let paths = links_of(&read_page(&page));
    assert_eq!(
        paths,
        vec![
            "/rl/Alpha", "/rl/Beta", "/rl/Gamma", "/rl/Alpha", "/rl/Beta", "/rl/Gamma", "/rl/TBD",
            "/rl/Beta", "/rl/Delta",
        ]
    );
}

#[test]
fn event_holds_its_tournaments() {
    let page = Page::parse(&markup("Offline"));
    let tournament = get_tournament(&page, &followed(), "Day 1".to_string(), reference_cutoff()).tournament;
    let event = Event { name: "Spring Cup".to_string(), premier: true, tournaments: vec![tournament] };
    assert_eq!(event.name, "Spring Cup");
    assert!(event.premier);
    assert_eq!(event.tournaments[0].name, "Day 1");
}
