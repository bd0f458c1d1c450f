use titanium_session::download::ask_download_confirm_if_needed;
use titanium_session::download::download_destination_chosen;
use titanium_session::download::find_destination;
use titanium_session::download::find_download_destination;
use titanium_session::download::handle_decide_destination;
use titanium_session::download::overwrite_download;
use titanium_session::download::resolve_confirm_path;
use titanium_session::download::set_download_destination;
use titanium_session::download::ConfirmOutcome;
use titanium_session::download::DecideOutcome;
use titanium_session::download::DestinationDecision;
use titanium_session::download::DialogChoice;
use titanium_session::download::DownloadAction;

fn names(items: &[&str]) -> Vec<String> {
    items.iter().map(|s| s.to_string()).collect()
}

#[test]
fn first_candidate_is_the_suggested_name() {
    let existing = Vec::new();
    assert_eq!(
        find_download_destination(&existing, "dl/", "report.pdf"),
        "dl/report.pdf"
    );
}

#[test]
fn taken_name_gets_counter_one() {
    let existing = names(&["report.pdf"]);
    assert_eq!(
        find_download_destination(&existing, "dl/", "report.pdf"),
        "dl/report_1.pdf"
    );
}

#[test]
fn smallest_unused_counter_wins() {
    let existing = names(&["report.pdf", "report_1.pdf", "report_3.pdf"]);
    assert_eq!(
        find_download_destination(&existing, "dl/", "report.pdf"),
        "dl/report_2.pdf"
    );
}

#[test]
fn counter_goes_before_the_last_extension_only() {
    let existing = names(&["archive.tar.gz"]);
    assert_eq!(
        find_download_destination(&existing, "dl/", "archive.tar.gz"),
        "dl/archive.tar_1.gz"
    );
}

#[test]
fn name_without_extension_still_gets_a_counter() {
    let existing = names(&["data"]);
    assert_eq!(find_download_destination(&existing, "dl/", "data"), "dl/data_1.");
}

#[test]
fn leading_dot_is_not_an_extension() {
    let existing = names(&[".bashrc"]);
    assert_eq!(find_download_destination(&existing, "dl/", ".bashrc"), "dl/.bashrc_1.");
}

#[test]
fn temp_destination_is_a_file_uri_with_the_same_candidates() {
    let existing = names(&["report.pdf"]);
    assert_eq!(
        find_destination(&existing, "data/downloads/", "report.pdf"),
        "file://data/downloads/report_1.pdf"
    );
}

#[test]
fn directory_choice_joins_the_suggested_name() {
    assert_eq!(resolve_confirm_path("dl", true, "report.pdf"), "dl/report.pdf");
    assert_eq!(resolve_confirm_path("dl/", true, "report.pdf"), "dl/report.pdf");
}

#[test]
fn file_choice_stands_as_it_is() {
    assert_eq!(resolve_confirm_path("dl/other.pdf", false, "report.pdf"), "dl/other.pdf");
}

#[test]
fn existing_foreign_file_raises_the_overwrite_question() {
    let outcome = ask_download_confirm_if_needed("dl/report.pdf", true, &None);
    match outcome {
        ConfirmOutcome::AskOverwrite { destination, message } => {
            assert_eq!(destination, "dl/report.pdf");
            assert_eq!(message, "Do you want to overwrite dl/report.pdf?");
        }
        _ => panic!("expected a question"),
    }
}

#[test]
fn own_destination_is_committed_without_a_question() {
    let current = Some("file://dl/report.pdf".to_string());
    let outcome = ask_download_confirm_if_needed("dl/report.pdf", true, &current);
    match outcome {
        ConfirmOutcome::Commit(DownloadAction::DownloadDestination(uri)) => {
            assert_eq!(uri, "file://dl/report.pdf");
        }
        _ => panic!("expected an immediate commit"),
    }
}

#[test]
fn fresh_path_is_committed_without_a_question() {
    let outcome = ask_download_confirm_if_needed("dl/report.pdf", false, &None);
    assert!(matches!(outcome, ConfirmOutcome::Commit(_)));
}

#[test]
fn overwrite_yes_commits_the_destination() {
    match overwrite_download("dl/report.pdf", true) {
        DownloadAction::DownloadDestination(uri) => assert_eq!(uri, "file://dl/report.pdf"),
        _ => panic!("expected a destination"),
    }
}

#[test]
fn overwrite_no_cancels_the_download() {
    assert!(matches!(
        overwrite_download("dl/report.pdf", false),
        DownloadAction::DownloadCancel
    ));
}

#[test]
fn set_download_destination_formats_a_file_uri() {
    match set_download_destination("dl/report.pdf") {
        DownloadAction::DownloadDestination(uri) => assert_eq!(uri, "file://dl/report.pdf"),
        _ => panic!("expected a destination"),
    }
}

#[test]
fn preassigned_destination_is_not_handled() {
    let current = Some("file://somewhere".to_string());
    let outcome = handle_decide_destination(&current, "report.pdf", "dl/", &Vec::new());
    assert!(matches!(outcome, DecideOutcome::NotHandled));
}

#[test]
fn decide_destination_uses_the_name_part_and_binds_in_order() {
    let existing = names(&["report.pdf"]);
    let outcome = handle_decide_destination(&None, "a/b/report.pdf", "dl/", &existing);
    match outcome {
        DecideOutcome::Handled { destination, actions } => {
            assert_eq!(destination, "dl/report_1.pdf");
            assert_eq!(actions.len(), 3);
            match &actions[0] {
                DownloadAction::DownloadDestination(uri) => {
                    assert_eq!(uri, "file://dl/report_1.pdf")
                }
                _ => panic!("expected the binding first"),
            }
            match &actions[1] {
                DownloadAction::DecideDownloadDestination(name) => assert_eq!(name, "report.pdf"),
                _ => panic!("expected the decision report"),
            }
            match &actions[2] {
                DownloadAction::DownloadOriginalDestination(path) => {
                    assert_eq!(path, "dl/report_1.pdf")
                }
                _ => panic!("expected the original destination"),
            }
        }
        _ => panic!("expected the destination to be handled"),
    }
}

#[test]
fn explicit_answer_goes_to_confirmation() {
    let decision = download_destination_chosen(
        DialogChoice::Answer(Some("dl/report.pdf".to_string())),
        "report.pdf",
        "data/downloads/",
        &Vec::new(),
    );
    match decision {
        DestinationDecision::Confirm(path) => assert_eq!(path, "dl/report.pdf"),
        _ => panic!("expected confirmation"),
    }
}

#[test]
fn cancelled_prompt_cancels_the_download() {
    let decision = download_destination_chosen(
        DialogChoice::Answer(None),
        "report.pdf",
        "data/downloads/",
        &Vec::new(),
    );
    match decision {
        DestinationDecision::Actions(actions) => {
            assert_eq!(actions.len(), 1);
            assert!(matches!(actions[0], DownloadAction::DownloadCancel));
        }
        _ => panic!("expected actions"),
    }
}

#[test]
fn download_shortcut_stages_before_binding() {
    let existing = names(&["report.pdf"]);
    let decision = download_destination_chosen(
        DialogChoice::Shortcut("download".to_string()),
        "report.pdf",
        "data/downloads/",
        &existing,
    );
    match decision {
        DestinationDecision::Actions(actions) => {
            assert_eq!(actions.len(), 2);
            assert!(matches!(actions[0], DownloadAction::AddFileToOpen));
            match &actions[1] {
                DownloadAction::DownloadDestination(uri) => {
                    assert_eq!(uri, "file://data/downloads/report_1.pdf")
                }
                _ => panic!("expected the binding after the staging"),
            }
        }
        _ => panic!("expected actions"),
    }
}

#[test]
fn unknown_shortcut_does_nothing() {
    let decision = download_destination_chosen(
        DialogChoice::Shortcut("bookmark".to_string()),
        "report.pdf",
        "data/downloads/",
        &Vec::new(),
    );
    match decision {
        DestinationDecision::Actions(actions) => assert!(actions.is_empty()),
        _ => panic!("expected no actions"),
    }
}
