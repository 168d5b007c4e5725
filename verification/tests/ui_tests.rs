use treq::app_state::App;
use treq::dao::Dao;
use treq::helper::CLI;
use treq::interfaces::SelectInterfaces;
use treq::node::EqNode;
use treq::processing::processing_plan;
use treq::profile::EqProfile;
use treq::render::{run_app_step, select_device_step, select_host_step, MenuAction, MenuKey, SelectionState};
use treq::band::{EqFilter, Freq};

fn strings(xs: &[&str]) -> Vec<String> {
    xs.iter().map(|s| s.to_string()).collect()
}

#[test]
fn interfaces_cycle_forward_and_back() {
    assert_eq!(SelectInterfaces::default(), SelectInterfaces::AddProfile);
    assert_eq!(SelectInterfaces::AddProfile.next(), SelectInterfaces::AddNode);
    assert_eq!(SelectInterfaces::Unload.next(), SelectInterfaces::AddProfile);
    assert_eq!(SelectInterfaces::AddProfile.prev(), SelectInterfaces::Unload);
    assert_eq!(SelectInterfaces::AllProfiles.next(), SelectInterfaces::SaveProfile);
    let mut x = SelectInterfaces::SearchProfile;
    for _ in 0..21 {
        assert_eq!(x.next().prev(), x);
        x = x.next();
    }
    assert_eq!(x, SelectInterfaces::SearchProfile);
}

#[test]
fn interface_names() {
    assert_eq!(SelectInterfaces::AddProfile.name(), "AddProfile");
    assert_eq!(SelectInterfaces::ViewEqCurve.name(), "ViewEqCurve");
    assert_eq!(SelectInterfaces::AllProfiles.name(), "AllProfiles");
    assert_eq!(SelectInterfaces::Unload.name(), "Unload");
}

#[test]
fn selection_wraps_round() {
    let mut s = SelectionState::new(strings(&["a", "b", "c"]));
    assert_eq!(s.selected, 0);
    s.prev();
    assert_eq!(s.selected, 2);
    assert_eq!(s.get_selected(), Some(&"c".to_string()));
    s.next();
    assert_eq!(s.selected, 0);
    s.next();
    s.next();
    assert_eq!(s.get_selected(), Some(&"c".to_string()));
}

#[test]
fn empty_selection_stays_put() {
    let mut s = SelectionState::new(vec![]);
    s.next();
    s.prev();
    assert_eq!(s.selected, 0);
    assert_eq!(s.get_selected(), None);
}

#[test]
fn host_menu_keys() {
    let mut s = SelectionState::new(strings(&["alsa", "jack"]));
    assert_eq!(select_host_step(&mut s, MenuKey::Down), MenuAction::Stay);
    assert_eq!(s.selected, 1);
    assert_eq!(select_host_step(&mut s, MenuKey::Tab), MenuAction::Stay);
    assert_eq!(s.selected, 0);
    assert_eq!(select_host_step(&mut s, MenuKey::BackTab), MenuAction::Stay);
    assert_eq!(s.selected, 1);
    assert_eq!(select_host_step(&mut s, MenuKey::Enter), MenuAction::Choose(1));
    assert_eq!(select_host_step(&mut s, MenuKey::Char('x')), MenuAction::Stay);
    assert_eq!(select_host_step(&mut s, MenuKey::Char('q')), MenuAction::Quit);
}

#[test]
fn device_menu_keys() {
    let mut s = SelectionState::new(strings(&["mic", "line", "usb"]));
    assert_eq!(select_device_step(&mut s, MenuKey::Tab), MenuAction::Stay);
    assert_eq!(s.selected, 1);
    assert_eq!(select_device_step(&mut s, MenuKey::BackTab), MenuAction::Stay);
    assert_eq!(s.selected, 0);
    assert_eq!(select_device_step(&mut s, MenuKey::Up), MenuAction::Stay);
    assert_eq!(s.selected, 2);
    assert_eq!(select_device_step(&mut s, MenuKey::Enter), MenuAction::Choose(2));
    assert_eq!(select_device_step(&mut s, MenuKey::Other), MenuAction::Stay);
    let mut empty = SelectionState::new(vec![]);
    assert_eq!(select_device_step(&mut empty, MenuKey::Enter), MenuAction::Stay);
}

#[test]
fn main_loop_quits_on_q_only() {
    let mut app = App::new(".Eqfiles/".to_string());
    assert!(run_app_step(&mut app, MenuKey::Char('q')));
    assert!(!run_app_step(&mut app, MenuKey::Char('w')));
    assert!(!run_app_step(&mut app, MenuKey::Enter));
}

#[test]
fn default_command_line() {
    let cli = CLI::new();
    assert!(!cli.dbg);
    assert_eq!(cli.profile, None);
    assert_eq!(cli.output_profiles_path, ".Eqfiles/");
}

#[test]
fn command_line_flags() {
    let mut cli = CLI::new();
    let help = cli.Parse_Args(&strings(&["-d", "--profile=my_profile.json", "-db=/tmp/profiles"]));
    assert!(!help);
    assert!(cli.dbg);
    assert_eq!(cli.profile, Some("my_profile.json".to_string()));
    assert_eq!(cli.output_profiles_path, "/tmp/profiles");
    let mut cli2 = CLI::new();
    assert!(!cli2.Parse_Args(&strings(&["-p=a=b.json", "--db_path=/x", "--debug"])));
    assert_eq!(cli2.profile, Some("a=b.json".to_string()));
    assert_eq!(cli2.output_profiles_path, "/x");
    assert!(cli2.dbg);
    let mut cli3 = CLI::new();
    assert!(!cli3.Parse_Args(&vec![]));
    assert!(!cli3.dbg);
}

#[test]
fn command_line_help_and_unknown_arguments() {
    let mut cli = CLI::new();
    assert!(cli.Parse_Args(&strings(&["-p=one", "-h", "-p=two"])));
    assert_eq!(cli.profile, Some("one".to_string()));
    let mut cli2 = CLI::new();
    assert!(cli2.Parse_Args(&strings(&["--verbose", "-d"])));
    assert!(!cli2.dbg);
    let mut cli3 = CLI::new();
    assert!(cli3.Parse_Args(&strings(&[" --HELP"])));
    let mut cli4 = CLI::new();
    assert!(!cli4.Parse_Args(&strings(&[" --DEBUG", "-D", "-p="])));
    assert!(cli4.dbg);
    assert_eq!(cli4.profile, Some(String::new()));
}

#[test]
fn app_knows_loaded_profiles() {
    let mut app = App::new("/tmp/eq".to_string());
    assert_eq!(app.current_interface, SelectInterfaces::AddProfile);
    assert_eq!(app.dao.ip_dir, "/tmp/eq");
    assert!(!app.is_loaded("bass"));
    app.profiles.push(EqProfile::new("bass", None, 2));
    app.profiles.push(EqProfile::new("vocal", None, 2));
    assert!(app.is_loaded("bass"));
    assert!(app.is_loaded("vocal"));
    assert!(!app.is_loaded("Bass"));
}

#[test]
fn dao_records_file_names() {
    let mut dao = Dao::new(".Eqfiles/".to_string());
    dao.load_all_confs(strings(&["a.json", "b.json"]));
    dao.load_all_confs(strings(&["c.json"]));
    assert_eq!(dao.all_confs, strings(&["a.json", "b.json", "c.json"]));
    assert_eq!(dao.ip_dir, ".Eqfiles/");
}

#[test]
fn processing_plan_follows_the_selection() {
    let mut app = App::new("/tmp/eq".to_string());
    assert!(processing_plan(&app).is_none());
    let mut p = EqProfile::new("p", Some(1.5f32.to_bits()), 2);
    let mut root = EqNode::new(None);
    root.add_band(Freq::Point(100), Some(EqFilter::LowShelf), None, 48000, 0);
    p.add_node(None, root);
    app.profiles.push(p);
    let plan = processing_plan(&app).unwrap();
    assert_eq!(plan.links.len(), 1);
    assert_eq!(plan.links[0].band.filter, Some(EqFilter::LowShelf));
    assert_eq!(plan.preamp.map(f32::from_bits), Some(1.5));
    app.selected_profile_idx = 1;
    assert!(processing_plan(&app).is_none());
}

#[test]
fn config_paths_join_directory_and_name() {
    let dao = Dao::new(".Eqfiles/".to_string());
    assert_eq!(dao.config_path("my_profile.json"), ".Eqfiles/my_profile.json");
    assert_eq!(dao.config_path("/etc/eq.json"), "/etc/eq.json");
    let bare = Dao::new("/tmp/eq".to_string());
    assert_eq!(bare.config_path("a.json"), "/tmp/eq/a.json");
    let empty = Dao::new(String::new());
    assert_eq!(empty.config_path("a.json"), "a.json");
    assert_eq!(bare.config_path(""), "/tmp/eq/");
}

#[test]
fn all_screens_in_cycle_order() {
    let all = SelectInterfaces::ALL;
    assert_eq!(all.len(), 21);
    assert_eq!(all[0], SelectInterfaces::AddProfile);
    assert_eq!(all[20], SelectInterfaces::Unload);
    for i in 0..21 {
        assert_eq!(all[i].next(), all[(i + 1) % 21]);
        assert_eq!(all[i].prev(), all[(i + 20) % 21]);
        assert_eq!(format!("{:?}", all[i]), all[i].name());
        for j in 0..i {
            assert_ne!(all[i], all[j]);
            assert_ne!(all[i].name(), all[j].name());
        }
    }
    let mut seen = Vec::new();
    let mut x = SelectInterfaces::Finalize;
    for _ in 0..21 {
        assert!(!seen.contains(&x));
        seen.push(x);
        x = x.next();
    }
    assert_eq!(x, SelectInterfaces::Finalize);
}
