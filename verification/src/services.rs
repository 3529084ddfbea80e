//! The services of a backup server, which `systemctl` shows and controls.

use vstd::prelude::*;
use vstd::string::*;

use crate::excludes::texts;
use crate::text::{chars_of, find_char, first_place, joined_text, lemma_first_place, same_text};

verus! {

// ---------------------------------------------------------------------------------------------
// JSON values
// ---------------------------------------------------------------------------------------------

/// A JSON value of `serde_json`.
#[verifier::external_type_specification]
#[verifier::external_body]
pub struct ExValue(serde_json::Value);

/// The members of a JSON value: the text of those that are texts, `None` for the others. A value
/// that is no object has no members.
pub uninterp spec fn json_members(value: serde_json::Value) -> Map<Seq<char>, Option<Seq<char>>>;

/// Whether a JSON value is an object.
pub uninterp spec fn json_is_object(value: serde_json::Value) -> bool;

/// Whether a JSON value is null.
pub uninterp spec fn json_is_null(value: serde_json::Value) -> bool;

/// The members of a value without members.
pub open spec fn no_members() -> Map<Seq<char>, Option<Seq<char>>> {
    Map::empty()
}

/// Makes a `serde_json::Value::Object` of an empty `serde_json::Map`: an object without members.
#[verifier::external_body]
fn json_object() -> (r: serde_json::Value)
    ensures
        json_is_object(r),
        !json_is_null(r),
        json_members(r) == no_members(),
{
    serde_json::Value::Object(serde_json::Map::new())
}

/// Makes `serde_json::Value::Null`: it is null and no object, and has no members.
#[verifier::external_body]
fn json_null() -> (r: serde_json::Value)
    ensures
        json_is_null(r),
        !json_is_object(r),
        json_members(r) == no_members(),
{
    serde_json::Value::Null
}

/// Assigns a text to a member by the `IndexMut` of `serde_json::Value`, which adds the member if
/// there is none of that name, and panics on a value that is neither an object nor null.
#[verifier::external_body]
fn json_set(value: &mut serde_json::Value, key: &str, text: &str)
    requires
        json_is_object(*old(value)),
    ensures
        json_is_object(*final(value)),
        !json_is_null(*final(value)),
        json_members(*final(value)) == json_members(*old(value)).insert(key@, Some(text@)),
{
    value[key] = serde_json::Value::from(text);
}

/// Reads a member by the `Index` of `serde_json::Value` and `serde_json::Value::as_str`: the text
/// of a member that is a text, and `None` if there is no such member, or it is no text.
#[verifier::external_body]
fn json_get(value: &serde_json::Value, key: &str) -> (r: Option<String>)
    ensures
        match r {
            Some(text) => json_members(*value).contains_key(key@) && json_members(*value)[key@] == Some(
                text@,
            ),
            None => !json_members(*value).contains_key(key@) || json_members(*value)[key@] is None,
        },
{
    value[key].as_str().map(|text| text.to_owned())
}

/// Calls `serde_json::Value::is_null`.
#[verifier::external_body]
fn json_null_test(value: &serde_json::Value) -> (r: bool)
    ensures
        r == json_is_null(*value),
{
    value.is_null()
}

// ---------------------------------------------------------------------------------------------
// Names
// ---------------------------------------------------------------------------------------------

/// The services that are shown.
pub open spec fn service_names() -> Seq<Seq<char>> {
    seq![
        "proxmox-backup"@,
        "proxmox-backup-proxy"@,
        "sshd"@,
        "syslog"@,
        "cron"@,
        "postfix"@,
        "systemd-timesyncd"@,
    ]
}

/// The services that are shown.
pub fn service_name_list() -> (r: Vec<String>)
    ensures
        texts(r@) == service_names(),
{
    let mut r: Vec<String> = Vec::new();
    r.push("proxmox-backup".to_owned());
    r.push("proxmox-backup-proxy".to_owned());
    r.push("sshd".to_owned());
    r.push("syslog".to_owned());
    r.push("cron".to_owned());
    r.push("postfix".to_owned());
    r.push("systemd-timesyncd".to_owned());
    assert(texts(r@) =~= service_names());
    r
}

/// The unit that stands for a service. That of `postfix` only manages the instances, of which the
/// default one is called `-`.
pub open spec fn unit_of(service: Seq<char>) -> Seq<char> {
    if service == "postfix"@ {
        "postfix@-"@
    } else {
        service
    }
}

/// Finds the unit that stands for a service.
pub fn real_service_name(service: &str) -> (r: &str)
    ensures
        r@ == unit_of(service@),
{
    if same_text(service, "postfix") {
        "postfix@-"
    } else {
        service
    }
}

/// Decides whether a service is one of those that are shown.
pub fn is_known_service(service: &str) -> (r: bool)
    ensures
        r == service_names().contains(service@),
{
    let names = service_name_list();
    let mut i: usize = 0;
    while i < names.len()
        invariant
            i <= names@.len(),
            texts(names@) == service_names(),
            forall|k: int| 0 <= k < i ==> service_names()[k] != service@,
        decreases names@.len() - i,
    {
        assert(service_names()[i as int] == names@[i as int]@);
        if same_text(service, names[i].as_str()) {
            return true;
        }
        i += 1;
    }
    assert(names@.len() == service_names().len());
    false
}

// ---------------------------------------------------------------------------------------------
// Errors
// ---------------------------------------------------------------------------------------------

/// What can go wrong.
#[derive(Debug, PartialEq, Eq)]
pub enum ServiceError {
    /// There is no service of this name.
    UnknownService(String),
    /// There is no command of this name.
    UnknownCommand(String),
    /// This service cannot do without: the command is refused.
    Essential(String, String),
    /// Showing a service ended with this status.
    ShowFailed(String),
    /// This command ended with this status.
    CommandFailed(String, String),
    /// Something outside failed.
    Outside(String),
}

impl View for ServiceError {
    type V = Seq<char>;

    /// The message of the error.
    open spec fn view(&self) -> Seq<char> {
        match *self {
            ServiceError::UnknownService(service) => "unknown service name '"@ + service@ + "'"@,
            ServiceError::UnknownCommand(cmd) => "unknown service command '"@ + cmd@ + "'"@,
            ServiceError::Essential(service, cmd) => "invalid service cmd '"@ + service@ + " "@ + cmd@
                + "' cannot stop essential service!"@,
            ServiceError::ShowFailed(status) => "systemctl show failed with "@ + status@,
            ServiceError::CommandFailed(cmd, status) => "systemctl "@ + cmd@ + " failed with "@ + status@,
            ServiceError::Outside(message) => message@,
        }
    }
}

impl ServiceError {
    /// The message of the error.
    pub fn to_string(&self) -> (r: String)
        ensures
            r@ == self@,
    {
        match self {
            ServiceError::UnknownService(service) => {
                let mut r = joined_text("unknown service name '", service.as_str());
                r.append("'");
                r
            },
            ServiceError::UnknownCommand(cmd) => {
                let mut r = joined_text("unknown service command '", cmd.as_str());
                r.append("'");
                r
            },
            ServiceError::Essential(service, cmd) => {
                let mut r = joined_text("invalid service cmd '", service.as_str());
                r.append(" ");
                r.append(cmd.as_str());
                r.append("' cannot stop essential service!");
                r
            },
            ServiceError::ShowFailed(status) => joined_text("systemctl show failed with ", status.as_str()),
            ServiceError::CommandFailed(cmd, status) => {
                let mut r = joined_text("systemctl ", cmd.as_str());
                r.append(" failed with ");
                r.append(status.as_str());
                r
            },
            ServiceError::Outside(message) => message.clone(),
        }
    }
}

// ---------------------------------------------------------------------------------------------
// The state of a service
// ---------------------------------------------------------------------------------------------

/// How a run of `systemctl` ended.
#[derive(Debug, PartialEq, Eq)]
pub enum Exit {
    /// With success.
    Success,
    /// With this status.
    Failure(String),
    /// It could not be started.
    NotStarted(String),
}

/// What `systemctl show` wrote, and how it ended.
#[derive(Debug, PartialEq, Eq)]
pub struct Shown {
    /// The lines it wrote, as far as they could be read.
    pub lines: Vec<String>,
    /// How it ended.
    pub exit: Exit,
}

/// The state that a number of lines spell out: each line holds a key and, after the first `=`, a
/// value. A line without `=` says nothing, and a later line replaces an earlier one.
pub open spec fn spelled_state(lines: Seq<Seq<char>>) -> Map<Seq<char>, Option<Seq<char>>>
    decreases lines.len(),
{
    if lines.len() == 0 {
        no_members()
    } else {
        let before = spelled_state(lines.drop_last());
        let line = lines.last();
        let at = first_place(line, '=');
        if at < line.len() {
            before.insert(line.take(at), Some(line.skip(at + 1)))
        } else {
            before
        }
    }
}

/// Reads a line into a state.
fn read_line(state: &mut serde_json::Value, line: &str)
    requires
        json_is_object(*old(state)),
    ensures
        json_is_object(*final(state)),
        json_members(*final(state)) == {
            let at = first_place(line@, '=');
            if at < line@.len() {
                json_members(*old(state)).insert(line@.take(at), Some(line@.skip(at + 1)))
            } else {
                json_members(*old(state))
            }
        },
{
    let text = chars_of(line);
    let at = find_char(&text, '=');
    if at < text.len() {
        let key = line.substring_char(0, at);
        let value = line.substring_char(at + 1, text.len());
        assert(key@ =~= line@.take(at as int));
        assert(value@ =~= line@.skip(at + 1));
        json_set(state, key, value);
    }
}

/// The result of showing a service, over mathematical values.
pub open spec fn full_state(shown: Shown) -> Result<Map<Seq<char>, Option<Seq<char>>>, Seq<char>> {
    match shown.exit {
        Exit::Success => Ok(spelled_state(texts(shown.lines@))),
        Exit::Failure(status) => Err("systemctl show failed with "@ + status@),
        Exit::NotStarted(message) => Err(message@),
    }
}

/// Reads what `systemctl show` wrote.
pub fn get_full_service_state(shown: &Shown) -> (r: Result<serde_json::Value, ServiceError>)
    ensures
        match r {
            Ok(state) => json_is_object(state) && full_state(*shown) == Ok::<
                Map<Seq<char>, Option<Seq<char>>>,
                Seq<char>,
            >(json_members(state)),
            Err(error) => full_state(*shown) == Err::<Map<Seq<char>, Option<Seq<char>>>, Seq<char>>(error@),
        },
{
    if let Exit::NotStarted(message) = &shown.exit {
        return Err(ServiceError::Outside(message.clone()));
    }
    let mut state = json_object();
    let ghost lines = texts(shown.lines@);
    let mut i: usize = 0;
    assert(lines.take(0) =~= Seq::<Seq<char>>::empty());
    while i < shown.lines.len()
        invariant
            i <= shown.lines@.len(),
            lines == texts(shown.lines@),
            json_is_object(state),
            json_members(state) == spelled_state(lines.take(i as int)),
        decreases shown.lines@.len() - i,
    {
        assert(lines.take(i + 1).drop_last() =~= lines.take(i as int));
        assert(lines.take(i + 1).last() == shown.lines@[i as int]@);
        read_line(&mut state, shown.lines[i].as_str());
        i += 1;
    }
    assert(lines.take(i as int) =~= lines);
    match &shown.exit {
        Exit::Failure(status) => Err(ServiceError::ShowFailed(status.clone())),
        _ => Ok(state),
    }
}

/// A text of a state; `other` if there is none of that name.
pub open spec fn text_or(
    state: Map<Seq<char>, Option<Seq<char>>>,
    key: Seq<char>,
    other: Seq<char>,
) -> Seq<char> {
    if state.contains_key(key) && state[key] is Some {
        state[key]->0
    } else {
        other
    }
}

/// What is reported of a service in the given state; nothing if the state has no description.
pub open spec fn service_report(service: Seq<char>, state: Map<Seq<char>, Option<Seq<char>>>) -> Option<
    Map<Seq<char>, Option<Seq<char>>>,
> {
    if state.contains_key("Description"@) && state["Description"@] is Some {
        Some(
            no_members().insert("service"@, Some(service)).insert(
                "name"@,
                Some(text_or(state, "Name"@, service)),
            ).insert("desc"@, state["Description"@]).insert(
                "state"@,
                Some(text_or(state, "SubState"@, "unknown"@)),
            ),
        )
    } else {
        None
    }
}

/// Reports a service in the given state; null if the state has no description.
pub fn json_service_state(service: &str, status: &serde_json::Value) -> (r: serde_json::Value)
    ensures
        match service_report(service@, json_members(*status)) {
            Some(report) => json_is_object(r) && !json_is_null(r) && json_members(r) == report,
            None => json_is_null(r),
        },
{
    match json_get(status, "Description") {
        Some(desc) => {
            let name = match json_get(status, "Name") {
                Some(name) => name,
                None => service.to_owned(),
            };
            let state = match json_get(status, "SubState") {
                Some(state) => state,
                None => "unknown".to_owned(),
            };
            let mut r = json_object();
            json_set(&mut r, "service", service);
            json_set(&mut r, "name", name.as_str());
            json_set(&mut r, "desc", desc.as_str());
            json_set(&mut r, "state", state.as_str());
            r
        },
        None => json_null(),
    }
}

// ---------------------------------------------------------------------------------------------
// Reports
// ---------------------------------------------------------------------------------------------

/// The members of a number of JSON values.
pub open spec fn all_members(values: Seq<serde_json::Value>) -> Seq<Map<Seq<char>, Option<Seq<char>>>> {
    values.map_values(|value: serde_json::Value| json_members(value))
}

/// The messages of a number of errors.
pub open spec fn messages(errors: Seq<ServiceError>) -> Seq<Seq<char>> {
    errors.map_values(|error: ServiceError| error@)
}

/// The reports of the services, of which the first ones were shown as given: those that have a
/// description, in order.
pub open spec fn service_reports(shown: Seq<Shown>) -> Seq<Map<Seq<char>, Option<Seq<char>>>>
    decreases shown.len(),
{
    if shown.len() == 0 {
        Seq::empty()
    } else {
        let before = service_reports(shown.drop_last());
        match full_state(shown.last()) {
            Ok(state) => match service_report(service_names()[shown.len() - 1], state) {
                Some(report) => before.push(report),
                None => before,
            },
            Err(_) => before,
        }
    }
}

/// The messages for the services that could not be shown, in order.
pub open spec fn service_errors(shown: Seq<Shown>) -> Seq<Seq<char>>
    decreases shown.len(),
{
    if shown.len() == 0 {
        Seq::empty()
    } else {
        let before = service_errors(shown.drop_last());
        match full_state(shown.last()) {
            Ok(_) => before,
            Err(message) => before.push(message),
        }
    }
}

/// Reports all services that could be shown and have a description. The errors of the others are
/// to be logged.
pub fn list_services(shown: &Vec<Shown>) -> (r: (Vec<serde_json::Value>, Vec<ServiceError>))
    requires
        shown@.len() == service_names().len(),
    ensures
        all_members(r.0@) == service_reports(shown@),
        forall|i: int| 0 <= i < r.0@.len() ==> json_is_object(#[trigger] r.0@[i]),
        messages(r.1@) == service_errors(shown@),
{
    let names = service_name_list();
    assert(names@.len() == service_names().len());
    let mut list: Vec<serde_json::Value> = Vec::new();
    let mut errors: Vec<ServiceError> = Vec::new();
    let mut i: usize = 0;
    proof {
        assert(shown@.take(0) =~= Seq::<Shown>::empty());
        assert(all_members(list@) =~= service_reports(shown@.take(0)));
        assert(messages(errors@) =~= service_errors(shown@.take(0)));
    }
    while i < shown.len()
        invariant
            i <= shown@.len(),
            shown@.len() == names@.len(),
            texts(names@) == service_names(),
            all_members(list@) == service_reports(shown@.take(i as int)),
            forall|k: int| 0 <= k < list@.len() ==> json_is_object(#[trigger] list@[k]),
            messages(errors@) == service_errors(shown@.take(i as int)),
        decreases shown@.len() - i,
    {
        let ghost upto = shown@.take(i + 1);
        assert(upto.drop_last() =~= shown@.take(i as int));
        assert(upto.last() == shown@[i as int]);
        assert(service_names()[i as int] == names@[i as int]@);
        match get_full_service_state(&shown[i]) {
            Ok(status) => {
                let state = json_service_state(names[i].as_str(), &status);
                if !json_null_test(&state) {
                    let ghost before = list@;
                    list.push(state);
                    assert(all_members(list@) =~= all_members(before).push(json_members(state)));
                }
            },
            Err(error) => {
                let ghost before = errors@;
                errors.push(error);
                assert(messages(errors@) =~= messages(before).push(error@));
            },
        }
        i += 1;
    }
    assert(shown@.take(i as int) =~= shown@);
    (list, errors)
}

/// Reports one service: null if its state has no description.
pub fn get_service_state(service: &str, shown: &Shown) -> (r: Result<serde_json::Value, ServiceError>)
    ensures
        !service_names().contains(service@) ==> (r matches Err(error) && error@
            == "unknown service name '"@ + service@ + "'"@),
        service_names().contains(service@) ==> match (full_state(*shown), r) {
            (Ok(state), Ok(value)) => match service_report(service@, state) {
                Some(report) => json_is_object(value) && json_members(value) == report,
                None => json_is_null(value),
            },
            (Err(message), Err(error)) => error@ == message,
            _ => false,
        },
{
    if !is_known_service(service) {
        return Err(ServiceError::UnknownService(service.to_owned()));
    }
    match get_full_service_state(shown) {
        Ok(status) => Ok(json_service_state(service, &status)),
        Err(error) => Err(error),
    }
}

// ---------------------------------------------------------------------------------------------
// Commands
// ---------------------------------------------------------------------------------------------

/// A run of `systemctl`.
#[derive(Debug, PartialEq, Eq)]
pub struct Systemctl {
    /// What to do.
    pub verb: String,
    /// The unit.
    pub unit: String,
}

/// The run of `systemctl` that shows a service.
pub fn show_service(service: &str) -> (r: Systemctl)
    ensures
        r.verb@ == "show"@,
        r.unit@ == unit_of(service@),
{
    Systemctl { verb: "show".to_owned(), unit: real_service_name(service).to_owned() }
}

/// Finds the run of `systemctl` that the report of one service takes. Nothing is run for a service
/// that is not known.
pub fn show_known_service(service: &str) -> (r: Result<Systemctl, ServiceError>)
    ensures
        match r {
            Ok(call) => {
                &&& service_names().contains(service@)
                &&& call.verb@ == "show"@
                &&& call.unit@ == unit_of(service@)
            },
            Err(error) => {
                &&& !service_names().contains(service@)
                &&& error@ == "unknown service name '"@ + service@ + "'"@
            },
        },
{
    if !is_known_service(service) {
        return Err(ServiceError::UnknownService(service.to_owned()));
    }
    Ok(show_service(service))
}

/// What a service command is for `systemctl`; `None` for a command that there is not. Some services
/// do not implement `reload`.
pub open spec fn verb_of(cmd: Seq<char>) -> Option<Seq<char>> {
    if cmd == "start"@ || cmd == "stop"@ || cmd == "restart"@ {
        Some(cmd)
    } else if cmd == "reload"@ {
        Some("try-reload-or-restart"@)
    } else {
        None
    }
}

/// Whether a service command is refused, as the service is essential.
pub open spec fn is_refused(service: Seq<char>, cmd: Seq<char>) -> bool {
    service == "proxmox-backup"@ && cmd == "stop"@
}

/// Whether a run of `systemctl`, or an error, is what a service command leads to.
pub open spec fn is_command(service: Seq<char>, cmd: Seq<char>, r: Result<Systemctl, ServiceError>) -> bool {
    match (verb_of(cmd), r) {
        (None, Err(error)) => error@ == "unknown service command '"@ + cmd + "'"@,
        (Some(verb), Err(error)) => is_refused(service, cmd) && error@ == "invalid service cmd '"@
            + service + " "@ + verb + "' cannot stop essential service!"@,
        (Some(verb), Ok(call)) => !is_refused(service, cmd) && call.verb@ == verb && call.unit@ == unit_of(
            service,
        ),
        (None, Ok(_)) => false,
    }
}

/// Finds the run of `systemctl` that a service command leads to.
pub fn run_service_command(service: &str, cmd: &str) -> (r: Result<Systemctl, ServiceError>)
    ensures
        is_command(service@, cmd@, r),
{
    let verb = if same_text(cmd, "start") || same_text(cmd, "stop") || same_text(cmd, "restart") {
        cmd
    } else if same_text(cmd, "reload") {
        "try-reload-or-restart"
    } else {
        return Err(ServiceError::UnknownCommand(cmd.to_owned()));
    };
    proof {
        lemma_verbs();
    }
    if same_text(service, "proxmox-backup") && same_text(verb, "stop") {
        return Err(ServiceError::Essential(service.to_owned(), verb.to_owned()));
    }
    Ok(Systemctl { verb: verb.to_owned(), unit: real_service_name(service).to_owned() })
}

/// The names of the commands differ.
proof fn lemma_verbs()
    ensures
        "try-reload-or-restart"@ != "stop"@,
        "start"@ != "stop"@,
        "restart"@ != "stop"@,
        "reload"@ != "stop"@,
        "start"@ != "reload"@,
        "restart"@ != "reload"@,
{
    reveal_strlit("try-reload-or-restart");
    reveal_strlit("start");
    reveal_strlit("stop");
    reveal_strlit("restart");
    reveal_strlit("reload");
    assert("try-reload-or-restart"@.len() == 21 && "stop"@.len() == 4);
    assert("start"@.len() == 5 && "restart"@.len() == 7 && "reload"@.len() == 6);
}

/// Decides on the result of a service command by how `systemctl` ended.
pub fn finish_service_command(call: &Systemctl, exit: &Exit) -> (r: Result<serde_json::Value, ServiceError>)
    ensures
        match exit {
            Exit::Success => r matches Ok(value) && json_is_null(value),
            Exit::Failure(status) => r matches Err(error) && error@ == "systemctl "@ + call.verb@
                + " failed with "@ + status@,
            Exit::NotStarted(message) => r matches Err(error) && error@ == message@,
        },
{
    match exit {
        Exit::Success => Ok(json_null()),
        Exit::Failure(status) => Err(ServiceError::CommandFailed(call.verb.clone(), status.clone())),
        Exit::NotStarted(message) => Err(ServiceError::Outside(message.clone())),
    }
}

/// Starts a service.
pub fn start_service(service: &str) -> (r: Result<Systemctl, ServiceError>)
    ensures
        is_command(service@, "start"@, r),
        r matches Ok(call) && call.verb@ == "start"@ && call.unit@ == unit_of(service@),
{
    let r = run_service_command(service, "start");
    proof {
        law_commands_are_run(service@, "start"@, r);
        lemma_verbs();
    }
    r
}

/// Stops a service.
pub fn stop_service(service: &str) -> (r: Result<Systemctl, ServiceError>)
    ensures
        is_command(service@, "stop"@, r),
        service@ != "proxmox-backup"@ ==> (r matches Ok(call) && call.verb@ == "stop"@ && call.unit@
            == unit_of(service@)),
        service@ == "proxmox-backup"@ ==> r is Err,
{
    let r = run_service_command(service, "stop");
    proof {
        law_commands_are_run(service@, "stop"@, r);
        lemma_verbs();
    }
    r
}

/// Restarts a service. The proxy is reloaded only, so that running tasks are not aborted.
pub fn restart_service(service: &str) -> (r: Result<Systemctl, ServiceError>)
    ensures
        is_command(
            service@,
            if service@ == "proxmox-backup-proxy"@ {
                "reload"@
            } else {
                "restart"@
            },
            r,
        ),
        r matches Ok(call) && call.unit@ == unit_of(service@) && call.verb@ == if service@
            == "proxmox-backup-proxy"@ {
            "try-reload-or-restart"@
        } else {
            "restart"@
        },
{
    if same_text(service, "proxmox-backup-proxy") {
        let r = run_service_command(service, "reload");
        proof {
            law_commands_are_run(service@, "reload"@, r);
            lemma_verbs();
        }
        r
    } else {
        let r = run_service_command(service, "restart");
        proof {
            law_commands_are_run(service@, "restart"@, r);
            lemma_verbs();
        }
        r
    }
}

/// Reloads a service.
pub fn reload_service(service: &str) -> (r: Result<Systemctl, ServiceError>)
    ensures
        is_command(service@, "reload"@, r),
        r matches Ok(call) && call.verb@ == "try-reload-or-restart"@ && call.unit@ == unit_of(service@),
{
    let r = run_service_command(service, "reload");
    proof {
        law_commands_are_run(service@, "reload"@, r);
        lemma_verbs();
    }
    r
}

// ---------------------------------------------------------------------------------------------
// Laws
// ---------------------------------------------------------------------------------------------

/// No service command stops the backup server itself.
pub proof fn law_server_is_not_stopped(service: Seq<char>, cmd: Seq<char>, call: Systemctl)
    requires
        is_command(service, cmd, Ok::<Systemctl, ServiceError>(call)),
    ensures
        !(call.verb@ == "stop"@ && call.unit@ == "proxmox-backup"@),
{
    lemma_verbs();
    reveal_strlit("postfix@-");
    reveal_strlit("proxmox-backup");
    assert("postfix@-"@.len() == 9 && "proxmox-backup"@.len() == 14);
}

/// Whether a line holds a value for a key.
pub open spec fn is_line_for(line: Seq<char>, key: Seq<char>) -> bool {
    first_place(line, '=') < line.len() && line.take(first_place(line, '=')) == key
}

/// The value of a key is that of the last line that holds one, whatever other lines there are.
pub proof fn law_last_line_counts(lines: Seq<Seq<char>>, key: Seq<char>, i: int)
    requires
        0 <= i < lines.len(),
        is_line_for(lines[i], key),
        forall|k: int| i < k < lines.len() ==> !is_line_for(#[trigger] lines[k], key),
    ensures
        spelled_state(lines).contains_key(key),
        spelled_state(lines)[key] == Some(lines[i].skip(first_place(lines[i], '=') + 1)),
    decreases lines.len(),
{
    if i < lines.len() - 1 {
        let before = lines.drop_last();
        assert forall|k: int| i < k < before.len() implies !is_line_for(#[trigger] before[k], key) by {
            assert(!is_line_for(lines[k], key));
        }
        law_last_line_counts(before, key, i);
        assert(!is_line_for(lines[lines.len() - 1], key));
    }
}

/// A key that no line holds a value for is not part of the state.
pub proof fn law_no_line_no_key(lines: Seq<Seq<char>>, key: Seq<char>)
    requires
        forall|k: int| 0 <= k < lines.len() ==> !is_line_for(#[trigger] lines[k], key),
    ensures
        !spelled_state(lines).contains_key(key),
    decreases lines.len(),
{
    if lines.len() > 0 {
        let before = lines.drop_last();
        assert forall|k: int| 0 <= k < before.len() implies !is_line_for(#[trigger] before[k], key) by {
            assert(!is_line_for(lines[k], key));
        }
        law_no_line_no_key(before, key);
        assert(!is_line_for(lines[lines.len() - 1], key));
    }
}

/// There are seven services, each under its own name.
pub proof fn law_seven_services()
    ensures
        service_names().len() == 7,
        service_names()[0] == "proxmox-backup"@,
        service_names()[1] == "proxmox-backup-proxy"@,
        service_names()[2] == "sshd"@,
        service_names()[3] == "syslog"@,
        service_names()[4] == "cron"@,
        service_names()[5] == "postfix"@,
        service_names()[6] == "systemd-timesyncd"@,
        forall|i: int, j: int|
            0 <= i < j < 7 ==> #[trigger] service_names()[i] != #[trigger] service_names()[j],
{
    reveal_strlit("proxmox-backup");
    reveal_strlit("proxmox-backup-proxy");
    reveal_strlit("sshd");
    reveal_strlit("syslog");
    reveal_strlit("cron");
    reveal_strlit("postfix");
    reveal_strlit("systemd-timesyncd");
    assert("proxmox-backup"@.len() == 14 && "proxmox-backup-proxy"@.len() == 20);
    assert("sshd"@.len() == 4 && "sshd"@[0] == 's' && "syslog"@.len() == 6);
    assert("cron"@.len() == 4 && "cron"@[0] == 'c' && "postfix"@.len() == 7);
    assert("systemd-timesyncd"@.len() == 17);
}

/// Each of the four commands is run on every service, by its own name and on the unit of that
/// service. Nothing is refused but to stop the backup server itself.
pub proof fn law_commands_are_run(service: Seq<char>, cmd: Seq<char>, r: Result<Systemctl, ServiceError>)
    requires
        is_command(service, cmd, r),
        cmd == "start"@ || cmd == "stop"@ || cmd == "restart"@ || cmd == "reload"@,
    ensures
        r is Err <==> service == "proxmox-backup"@ && cmd == "stop"@,
        r matches Ok(call) ==> {
            &&& cmd != "reload"@ ==> call.verb@ == cmd
            &&& cmd == "reload"@ ==> call.verb@ == "try-reload-or-restart"@
            &&& service != "postfix"@ ==> call.unit@ == service
            &&& service == "postfix"@ ==> call.unit@ == "postfix@-"@
        },
        r matches Err(error) ==> error@ == "invalid service cmd '"@ + "proxmox-backup"@ + " "@ + "stop"@
            + "' cannot stop essential service!"@,
{
    reveal_strlit("start");
    reveal_strlit("stop");
    reveal_strlit("restart");
    reveal_strlit("reload");
    assert("start"@.len() == 5 && "stop"@.len() == 4);
    assert("restart"@.len() == 7 && "reload"@.len() == 6);
}

/// A command of any other name is run on no service.
pub proof fn law_other_commands_are_unknown(
    service: Seq<char>,
    cmd: Seq<char>,
    r: Result<Systemctl, ServiceError>,
)
    requires
        is_command(service, cmd, r),
        cmd != "start"@ && cmd != "stop"@ && cmd != "restart"@ && cmd != "reload"@,
    ensures
        r matches Err(error) && error@ == "unknown service command '"@ + cmd + "'"@,
{
}

/// Two services share a unit only if they are the same: a command on one never acts on another.
pub proof fn law_units_tell_services_apart(first: Seq<char>, second: Seq<char>)
    requires
        first != "postfix@-"@,
        second != "postfix@-"@,
        unit_of(first) == unit_of(second),
    ensures
        first == second,
{
}

/// A report names the service that was asked for, whatever the state says; it has the description,
/// the name and the state that the state spells out, and no other member.
pub proof fn law_report_is_of_the_service(service: Seq<char>, state: Map<Seq<char>, Option<Seq<char>>>)
    ensures
        service_report(service, state) is Some <==> state.contains_key("Description"@)
            && state["Description"@] is Some,
        service_report(service, state) matches Some(report) ==> {
            &&& forall|key: Seq<char>| #[trigger]
                report.contains_key(key) <==> key == "service"@ || key == "name"@ || key == "desc"@ || key
                    == "state"@
            &&& report["service"@] == Some(service)
            &&& report["desc"@] == state["Description"@]
            &&& forall|name: Seq<char>|
                state.contains_key("Name"@) && state["Name"@] == Some(name) ==> report["name"@] == Some(name)
            &&& !state.contains_key("Name"@) || state["Name"@] is None ==> report["name"@] == Some(service)
            &&& forall|sub: Seq<char>|
                state.contains_key("SubState"@) && state["SubState"@] == Some(sub) ==> report["state"@]
                    == Some(sub)
            &&& !state.contains_key("SubState"@) || state["SubState"@] is None ==> report["state"@] == Some("unknown"@)
        },
{
    reveal_strlit("service");
    reveal_strlit("name");
    reveal_strlit("desc");
    reveal_strlit("state");
    assert("service"@.len() == 7 && "name"@.len() == 4 && "name"@[0] == 'n');
    assert("desc"@.len() == 4 && "desc"@[0] == 'd' && "state"@.len() == 5);
}

/// The reports of the first services are the first reports of all.
proof fn lemma_reports_of_the_first(shown: Seq<Shown>, n: int)
    requires
        0 <= n <= shown.len(),
    ensures
        service_reports(shown.take(n)).is_prefix_of(service_reports(shown)),
        service_errors(shown.take(n)).is_prefix_of(service_errors(shown)),
    decreases shown.len() - n,
{
    if n < shown.len() {
        lemma_reports_of_the_first(shown, n + 1);
        assert(shown.take(n + 1).drop_last() =~= shown.take(n));
    } else {
        assert(shown.take(n) =~= shown);
    }
}

/// The report of each service that has a description stands in the list, after those of the
/// services before it, and is the one that this service has by itself. It bears the name of the
/// service.
pub proof fn law_each_service_is_listed(
    shown: Seq<Shown>,
    i: int,
    state: Map<Seq<char>, Option<Seq<char>>>,
    report: Map<Seq<char>, Option<Seq<char>>>,
)
    requires
        0 <= i < shown.len() <= 7,
        full_state(shown[i]) == Ok::<Map<Seq<char>, Option<Seq<char>>>, Seq<char>>(state),
        service_report(service_names()[i], state) == Some(report),
    ensures
        service_reports(shown.take(i)).len() < service_reports(shown).len(),
        service_reports(shown)[service_reports(shown.take(i)).len() as int] == report,
        report["service"@] == Some(
            seq![
                "proxmox-backup"@,
                "proxmox-backup-proxy"@,
                "sshd"@,
                "syslog"@,
                "cron"@,
                "postfix"@,
                "systemd-timesyncd"@,
            ][i],
        ),
{
    assert(shown.take(i + 1).drop_last() =~= shown.take(i));
    assert(shown.take(i + 1).last() == shown[i]);
    lemma_reports_of_the_first(shown, i + 1);
    law_report_is_of_the_service(service_names()[i], state);
    assert(service_reports(shown.take(i + 1)) == service_reports(shown.take(i)).push(report));
    assert(service_reports(shown.take(i + 1))[service_reports(shown.take(i)).len() as int] == report);
}

/// Every report of the list is that of one of the services, at its place, and bears its name.
pub proof fn law_each_report_is_of_a_service(shown: Seq<Shown>, k: int) -> (i: int)
    requires
        shown.len() <= 7,
        0 <= k < service_reports(shown).len(),
    ensures
        0 <= i < shown.len(),
        service_reports(shown.take(i)).len() == k,
        full_state(shown[i]) is Ok,
        service_report(service_names()[i], full_state(shown[i])->Ok_0) == Some(service_reports(shown)[k]),
        service_reports(shown)[k]["service"@] == Some(service_names()[i]),
    decreases shown.len(),
{
    let before = shown.drop_last();
    let last: int = shown.len() - 1;
    assert(shown.take(last) =~= before);
    if k < service_reports(before).len() {
        let i = law_each_report_is_of_a_service(before, k);
        assert(before.take(i) =~= shown.take(i));
        i
    } else {
        law_report_is_of_the_service(service_names()[last], full_state(shown[last])->Ok_0);
        last
    }
}

/// The message of each service that could not be shown is kept, in order.
pub proof fn law_each_failure_is_kept(shown: Seq<Shown>, i: int, message: Seq<char>)
    requires
        0 <= i < shown.len(),
        full_state(shown[i]) == Err::<Map<Seq<char>, Option<Seq<char>>>, Seq<char>>(message),
    ensures
        service_errors(shown.take(i)).len() < service_errors(shown).len(),
        service_errors(shown)[service_errors(shown.take(i)).len() as int] == message,
{
    assert(shown.take(i + 1).drop_last() =~= shown.take(i));
    assert(shown.take(i + 1).last() == shown[i]);
    lemma_reports_of_the_first(shown, i + 1);
    assert(service_errors(shown.take(i + 1))[service_errors(shown.take(i)).len() as int] == message);
}

/// A run of `systemctl` that did not succeed says nothing of the service, whatever it wrote; one
/// that did never fails.
pub proof fn law_only_success_counts(shown: Shown)
    ensures
        full_state(shown) is Ok <==> shown.exit is Success,
        forall|status: String|
            shown.exit == Exit::Failure(status) ==> (full_state(shown) matches Err(message) && message
                == "systemctl show failed with "@ + status@),
        forall|text: String|
            shown.exit == Exit::NotStarted(text) ==> (full_state(shown) matches Err(message) && message
                == text@),
{
}

/// A line that is a key, `=` and a value gives the key that value, also if the value holds
/// further `=`; every other key keeps its value.
pub proof fn law_line_is_key_and_value(lines: Seq<Seq<char>>, key: Seq<char>, value: Seq<char>)
    requires
        !key.contains('='),
    ensures
        spelled_state(lines.push(key + seq!['='] + value)) == spelled_state(lines).insert(key, Some(value)),
{
    let line = key + seq!['='] + value;
    let at: int = key.len() as int;
    assert forall|i: int| 0 <= i < at implies line[i] != '=' by {
        assert(line[i] == key[i]);
        assert(key.contains(key[i]));
    }
    lemma_first_place(line, '=', at);
    assert(line.take(at) =~= key);
    assert(line.skip(at + 1) =~= value);
    assert(lines.push(line).drop_last() =~= lines);
}

/// A line without `=` says nothing.
pub proof fn law_line_without_value(lines: Seq<Seq<char>>, line: Seq<char>)
    requires
        !line.contains('='),
    ensures
        spelled_state(lines.push(line)) == spelled_state(lines),
{
    assert forall|i: int| 0 <= i < line.len() implies line[i] != '=' by {
        assert(line.contains(line[i]));
    }
    lemma_first_place(line, '=', line.len() as int);
    assert(lines.push(line).drop_last() =~= lines);
}

} // verus!
