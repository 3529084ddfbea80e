use pxar_backup::services::{
    finish_service_command, get_full_service_state, get_service_state, is_known_service,
    json_service_state, list_services, real_service_name, reload_service, restart_service,
    run_service_command, service_name_list, show_known_service, show_service, start_service, stop_service, Exit,
    ServiceError, Shown, Systemctl,
};
use serde_json::Value;

fn shown(lines: &[&str]) -> Shown {
    Shown { lines: lines.iter().map(|line| line.to_string()).collect(), exit: Exit::Success }
}

fn call(verb: &str, unit: &str) -> Systemctl {
    Systemctl { verb: verb.to_owned(), unit: unit.to_owned() }
}

fn object(members: &[(&str, &str)]) -> Value {
    let mut map = serde_json::Map::new();
    for (key, value) in members {
        map.insert(key.to_string(), Value::from(*value));
    }
    Value::Object(map)
}

#[test]
fn postfix_stands_for_its_default_instance() {
    assert_eq!(real_service_name("postfix"), "postfix@-");
    assert_eq!(real_service_name("sshd"), "sshd");
    assert_eq!(show_service("postfix"), call("show", "postfix@-"));
}

#[test]
fn seven_services_are_known() {
    assert_eq!(service_name_list().len(), 7);
    assert!(is_known_service("cron"));
    assert!(is_known_service("systemd-timesyncd"));
    assert!(!is_known_service("nginx"));
    assert!(!is_known_service(""));
}

#[test]
fn lines_are_split_at_the_first_equals_sign() {
    let state = get_full_service_state(&shown(&["Id=a.service", "ExecStart=x=y", "Empty=", "none"])).unwrap();
    assert_eq!(state, object(&[("Id", "a.service"), ("ExecStart", "x=y"), ("Empty", "")]));
}

#[test]
fn the_last_line_for_a_key_counts() {
    let state = get_full_service_state(&shown(&["Name=a", "Other=x", "Name=b"])).unwrap();
    assert_eq!(state, object(&[("Name", "b"), ("Other", "x")]));
}

#[test]
fn a_failed_show_is_an_error() {
    let mut failed = shown(&["Description=x"]);
    failed.exit = Exit::Failure("exit status: 4".to_owned());
    let error = get_full_service_state(&failed).unwrap_err();
    assert_eq!(error, ServiceError::ShowFailed("exit status: 4".to_owned()));
    assert_eq!(error.to_string(), "systemctl show failed with exit status: 4");
    failed.exit = Exit::NotStarted("no such file".to_owned());
    assert_eq!(get_full_service_state(&failed).unwrap_err().to_string(), "no such file");
}

#[test]
fn a_report_has_four_members() {
    let state = object(&[("Description", "d"), ("Name", "n"), ("SubState", "running"), ("More", "m")]);
    let report = json_service_state("cron", &state);
    assert_eq!(report, object(&[("service", "cron"), ("name", "n"), ("desc", "d"), ("state", "running")]));
}

#[test]
fn a_report_has_defaults() {
    let report = json_service_state("cron", &object(&[("Description", "d")]));
    assert_eq!(report, object(&[("service", "cron"), ("name", "cron"), ("desc", "d"), ("state", "unknown")]));
}

#[test]
fn no_description_no_report() {
    assert_eq!(json_service_state("cron", &object(&[("Name", "n")])), Value::Null);
    assert_eq!(json_service_state("cron", &Value::Null), Value::Null);
    let mut map = serde_json::Map::new();
    map.insert("Description".to_owned(), Value::from(1));
    assert_eq!(json_service_state("cron", &Value::Object(map)), Value::Null);
}

#[test]
fn services_that_cannot_be_shown_are_left_out() {
    let mut all: Vec<Shown> = Vec::new();
    for _ in 0..7 {
        all.push(shown(&["Name=x"]));
    }
    all[2] = shown(&["Description=ssh", "Name=ssh.service"]);
    all[4] = shown(&["Description=cron", "SubState=dead"]);
    all[5].exit = Exit::Failure("exit status: 1".to_owned());
    let (list, errors) = list_services(&all);
    assert_eq!(
        list,
        vec![
            object(&[("service", "sshd"), ("name", "ssh.service"), ("desc", "ssh"), ("state", "unknown")]),
            object(&[("service", "cron"), ("name", "cron"), ("desc", "cron"), ("state", "dead")]),
        ]
    );
    assert_eq!(errors, vec![ServiceError::ShowFailed("exit status: 1".to_owned())]);
}

#[test]
fn one_service_is_reported() {
    let report = get_service_state("postfix", &shown(&["Description=mail"])).unwrap();
    assert_eq!(report, object(&[("service", "postfix"), ("name", "postfix"), ("desc", "mail"), ("state", "unknown")]));
    assert_eq!(get_service_state("postfix", &shown(&[])).unwrap(), Value::Null);
    let error = get_service_state("nginx", &shown(&["Description=web"])).unwrap_err();
    assert_eq!(error, ServiceError::UnknownService("nginx".to_owned()));
    assert_eq!(error.to_string(), "unknown service name 'nginx'");
}

#[test]
fn commands_lead_to_systemctl() {
    assert_eq!(start_service("sshd").unwrap(), call("start", "sshd"));
    assert_eq!(stop_service("postfix").unwrap(), call("stop", "postfix@-"));
    assert_eq!(restart_service("sshd").unwrap(), call("restart", "sshd"));
    assert_eq!(reload_service("sshd").unwrap(), call("try-reload-or-restart", "sshd"));
}

#[test]
fn the_proxy_is_reloaded_instead_of_restarted() {
    let expected = call("try-reload-or-restart", "proxmox-backup-proxy");
    assert_eq!(restart_service("proxmox-backup-proxy").unwrap(), expected);
}

#[test]
fn the_server_itself_is_not_stopped() {
    let error = stop_service("proxmox-backup").unwrap_err();
    assert_eq!(error, ServiceError::Essential("proxmox-backup".to_owned(), "stop".to_owned()));
    assert_eq!(
        error.to_string(),
        "invalid service cmd 'proxmox-backup stop' cannot stop essential service!"
    );
    assert_eq!(restart_service("proxmox-backup").unwrap(), call("restart", "proxmox-backup"));
}

#[test]
fn unknown_commands_are_refused() {
    let error = run_service_command("sshd", "kill").unwrap_err();
    assert_eq!(error, ServiceError::UnknownCommand("kill".to_owned()));
    assert_eq!(error.to_string(), "unknown service command 'kill'");
}

#[test]
fn a_command_ends_with_null_or_an_error() {
    let reload = reload_service("sshd").unwrap();
    assert_eq!(finish_service_command(&reload, &Exit::Success).unwrap(), Value::Null);
    let error = finish_service_command(&reload, &Exit::Failure("exit status: 5".to_owned())).unwrap_err();
    assert_eq!(error.to_string(), "systemctl try-reload-or-restart failed with exit status: 5");
    let error = finish_service_command(&reload, &Exit::NotStarted("gone".to_owned())).unwrap_err();
    assert_eq!(error, ServiceError::Outside("gone".to_owned()));
}

#[test]
fn nothing_is_run_for_an_unknown_service() {
    assert_eq!(show_known_service("postfix").unwrap(), call("show", "postfix@-"));
    assert_eq!(show_known_service("cron").unwrap(), call("show", "cron"));
    let error = show_known_service("nginx").unwrap_err();
    assert_eq!(error.to_string(), "unknown service name 'nginx'");
}
