//! The configuration of a simulation, read from a TOML text: the number of
//! followers, the name of the message queues, the executables to run, the
//! random number and the path of the topology file.

use vstd::prelude::*;
use vstd::utf8::encode_utf8;

use crate::cstr::{is_valid_cstr_contents, no_nul};

verus! {

/// A TOML value as plain values; a float is kept as its bits and a date as
/// its text.
#[derive(Debug, PartialEq)]
pub enum TomlValue {
    String(String),
    Integer(i64),
    Float(u64),
    Boolean(bool),
    Datetime(String),
    Array(Vec<TomlValue>),
    Table(Vec<(String, TomlValue)>),
}

#[verifier::external_type_specification]
#[verifier::external_body]
pub struct ExTomlValue(toml::Value);

#[verifier::external_type_specification]
#[verifier::external_body]
pub struct ExTomlError(toml::de::Error);

/// The TOML document that the `toml` crate reads from a text, where it reads one.
pub uninterp spec fn toml_document(text: Seq<char>) -> Option<TomlValue>;

/// Converts a `toml` value into a plain value, variant for variant (a table
/// in the order `toml` keeps its keys).
#[verifier::external_body]
fn toml_value_from(v: toml::Value) -> TomlValue {
    match v {
        toml::Value::String(s) => TomlValue::String(s),
        toml::Value::Integer(i) => TomlValue::Integer(i),
        toml::Value::Float(f) => TomlValue::Float(f.to_bits()),
        toml::Value::Boolean(b) => TomlValue::Boolean(b),
        toml::Value::Datetime(d) => TomlValue::Datetime(d.to_string()),
        toml::Value::Array(a) => TomlValue::Array(a.into_iter().map(toml_value_from).collect()),
        toml::Value::Table(t) => TomlValue::Table(
            t.into_iter().map(|(k, v)| (k, toml_value_from(v))).collect(),
        ),
    }
}

/// `toml::from_str::<toml::Value>`: reads a TOML document, or fails. What it
/// reads is named by `toml_document`, a function of the text alone; the
/// error's message is not stated.
#[verifier::external_body]
pub(crate) fn toml_from_str(text: &str) -> (r: Result<TomlValue, toml::de::Error>)
    ensures
        r is Ok <==> toml_document(text@) is Some,
        r matches Ok(v) ==> toml_document(text@) == Some(v),
{
    match toml::from_str::<toml::Value>(text) {
        Ok(v) => Ok(toml_value_from(v)),
        Err(e) => Err(e),
    }
}

/// Why a configuration could not be read.
#[derive(Debug, PartialEq, Eq, Clone, Copy)]
pub enum ConfigError {
    /// The text is not a TOML document.
    Toml,
    /// A name, path or argument of an executable holds a NUL character, so it
    /// cannot be handed to the system as a C string.
    InteriorNul,
}

/// Whether a text can be handed to the system as a C string: its UTF-8
/// bytes hold no NUL.
pub open spec fn cstr_ok(s: Seq<char>) -> bool {
    no_nul(encode_utf8(s))
}

/// Whether `s` can be handed to the system as a C string.
fn is_cstr_ok(s: &str) -> (r: bool)
    ensures
        r == cstr_ok(s@),
{
    is_valid_cstr_contents(s.as_bytes())
}

/// An executable to run as a follower: its name, its path and its arguments.
#[derive(Debug)]
pub struct Process {
    pub name: String,
    pub path: String,
    pub args: Vec<String>,
}

/// A process seen as texts: name, path and arguments.
pub type ProcessView = (Seq<char>, Seq<char>, Seq<Seq<char>>);

/// The texts of a list of strings.
pub open spec fn texts(v: Seq<String>) -> Seq<Seq<char>> {
    v.map_values(|s: String| s@)
}

impl Process {
    /// The process seen as texts.
    pub open spec fn view(&self) -> ProcessView {
        (self.name@, self.path@, texts(self.args@))
    }

    /// Creates a process from its name, path and arguments.
    pub fn new(name: String, path: String, args: Vec<String>) -> (r: Self)
        ensures
            r.name == name,
            r.path == path,
            r.args == args,
    {
        Process { name, path, args }
    }

    /// Creates a process where the name and the path are given: the
    /// arguments are the strings among `args` (none where `args` is not given).
    pub fn optionable_new(name: Option<&str>, path: Option<&str>, args: Option<&Vec<TomlValue>>) -> (r: Option<Self>)
        requires
            name matches Some(n) ==> cstr_ok(n@),
            name is Some ==> (path matches Some(p) ==> cstr_ok(p@)),
            name is Some && path is Some ==> (args matches Some(a) ==> strings_ok(a@)),
        ensures
            r is Some <==> (name is Some && path is Some),
            r matches Some(p) ==> p.view() == (
                name.unwrap()@,
                path.unwrap()@,
                match args {
                    Some(a) => strings_of(a@),
                    None => Seq::empty(),
                },
            ),
    {
        let n = match name {
            Some(n) => n,
            None => return None,
        };
        let p = match path {
            Some(p) => p,
            None => return None,
        };
        let args_vec = match args {
            Some(a) => collect_strings(a),
            None => Vec::new(),
        };
        let r = Process { name: n.to_owned(), path: p.to_owned(), args: args_vec };
        assert(texts(r.args@) =~= match args {
            Some(a) => strings_of(a@),
            None => Seq::empty(),
        });
        Some(r)
    }
}

/// The text of a value that is a string.
pub open spec fn as_str(v: TomlValue) -> Option<Seq<char>> {
    match v {
        TomlValue::String(s) => Some(s@),
        _ => None,
    }
}

/// The texts of the values of `a` that are strings, in order.
pub open spec fn strings_of(a: Seq<TomlValue>) -> Seq<Seq<char>>
    decreases a.len(),
{
    if a.len() == 0 {
        Seq::empty()
    } else {
        match as_str(a.last()) {
            Some(s) => strings_of(a.drop_last()).push(s),
            None => strings_of(a.drop_last()),
        }
    }
}

/// Every value of `a` that is a string can be handed to the system as a C string.
pub open spec fn strings_ok(a: Seq<TomlValue>) -> bool {
    forall|i: int| 0 <= i < a.len() ==> (#[trigger] as_str(a[i]) matches Some(s) ==> cstr_ok(s))
}

/// Collects the strings among `a`, in order.
fn collect_strings(a: &Vec<TomlValue>) -> (r: Vec<String>)
    ensures
        texts(r@) == strings_of(a@),
{
    let mut r: Vec<String> = Vec::new();
    let mut i: usize = 0;
    while i < a.len()
        invariant
            0 <= i <= a@.len(),
            texts(r@) == strings_of(a@.subrange(0, i as int)),
        decreases a@.len() - i,
    {
        assert(a@.subrange(0, i + 1).drop_last() =~= a@.subrange(0, i as int));
        match &a[i] {
            TomlValue::String(s) => {
                let ghost before = r@;
                r.push(s.clone());
                assert(texts(r@) =~= texts(before).push(s@));
            },
            _ => {},
        }
        i = i + 1;
    }
    assert(a@.subrange(0, a@.len() as int) =~= a@);
    r
}

/// Whether the pairs of a table hold the key `key`.
pub open spec fn has_key(p: Seq<(String, TomlValue)>, key: Seq<char>) -> bool {
    exists|i: int| 0 <= i < p.len() && p[i].0@ == key
}

/// The position of the first pair with the key `key`.
pub open spec fn key_pos(p: Seq<(String, TomlValue)>, key: Seq<char>) -> int {
    choose|i: int| 0 <= i < p.len() && p[i].0@ == key && forall|j: int| 0 <= j < i ==> p[j].0@ != key
}

/// The value of key `key` in a table; nothing for a value that is not a table.
pub open spec fn toml_get(v: TomlValue, key: Seq<char>) -> Option<TomlValue> {
    match v {
        TomlValue::Table(pairs) => if has_key(pairs@, key) {
            Some(pairs@[key_pos(pairs@, key)].1)
        } else {
            None
        },
        _ => None,
    }
}

/// The value of key `key` in a table.
fn get<'a>(v: &'a TomlValue, key: &str) -> (r: Option<&'a TomlValue>)
    ensures
        match r {
            Some(x) => toml_get(*v, key@) == Some(*x),
            None => toml_get(*v, key@) is None,
        },
{
    match v {
        TomlValue::Table(pairs) => {
            let mut i: usize = 0;
            while i < pairs.len()
                invariant
                    0 <= i <= pairs@.len(),
                    *v == TomlValue::Table(*pairs),
                    forall|j: int| 0 <= j < i ==> pairs@[j].0@ != key@,
                decreases pairs@.len() - i,
            {
                let k = key.to_owned();
                if pairs[i].0 == k {
                    assert(key_pos(pairs@, key@) == i);
                    return Some(&pairs[i].1);
                }
                i = i + 1;
            }
            None
        },
        _ => None,
    }
}

/// The integer under `key`, or zero.
pub open spec fn int_or_zero(v: TomlValue, key: Seq<char>) -> i64 {
    match toml_get(v, key) {
        Some(TomlValue::Integer(i)) => i,
        _ => 0,
    }
}

/// The entries of the array `exe` of the table `executables`; none where there is no such array.
pub open spec fn exe_entries(v: TomlValue) -> Seq<TomlValue> {
    match toml_get(v, "executables"@) {
        Some(TomlValue::Table(t)) => match toml_get(TomlValue::Table(t), "exe"@) {
            Some(TomlValue::Array(a)) => a@,
            _ => Seq::empty(),
        },
        _ => Seq::empty(),
    }
}

/// The process that an entry describes: where it is a table with a string
/// `name` and a string `path`; its arguments are the strings of its array
/// `args`.
pub open spec fn process_of(e: TomlValue) -> Option<ProcessView> {
    match e {
        TomlValue::Table(_) => match (toml_get(e, "name"@), toml_get(e, "path"@)) {
            (Some(TomlValue::String(n)), Some(TomlValue::String(p))) => Some(
                (
                    n@,
                    p@,
                    match toml_get(e, "args"@) {
                        Some(TomlValue::Array(a)) => strings_of(a@),
                        _ => Seq::empty(),
                    },
                ),
            ),
            _ => None,
        },
        _ => None,
    }
}

/// Whether the texts of an entry that are handed to the system can be
/// handed as C strings: the name, if it is a string; then the path, if it
/// is a string too; then the strings of `args`, if both are.
pub open spec fn entry_ok(e: TomlValue) -> bool {
    match e {
        TomlValue::Table(_) => match as_str_opt(toml_get(e, "name"@)) {
            None => true,
            Some(n) => cstr_ok(n) && match as_str_opt(toml_get(e, "path"@)) {
                None => true,
                Some(p) => cstr_ok(p) && (toml_get(e, "args"@) matches Some(TomlValue::Array(a))
                    ==> strings_ok(a@)),
            },
        },
        _ => true,
    }
}

/// The text of an optional value that is a string.
pub open spec fn as_str_opt(o: Option<TomlValue>) -> Option<Seq<char>> {
    match o {
        Some(v) => as_str(v),
        None => None,
    }
}

/// The processes of the first `n` entries, in order; an error where a text
/// cannot be handed to the system.
pub open spec fn processes_of(entries: Seq<TomlValue>, n: nat) -> Result<Seq<ProcessView>, ConfigError>
    decreases n,
{
    if n == 0 {
        Ok(Seq::empty())
    } else {
        match processes_of(entries, (n - 1) as nat) {
            Ok(ps) => if !entry_ok(entries[n - 1]) {
                Err(ConfigError::InteriorNul)
            } else {
                match process_of(entries[n - 1]) {
                    Some(p) => Ok(ps.push(p)),
                    None => Ok(ps),
                }
            },
            Err(e) => Err(e),
        }
    }
}

/// Once reading the processes fails, it fails with the same error.
proof fn lemma_processes_of_err(entries: Seq<TomlValue>, k: nat, n: nat)
    requires
        k <= n,
        processes_of(entries, k) is Err,
    ensures
        processes_of(entries, n) == processes_of(entries, k),
    decreases n - k,
{
    if k < n {
        lemma_processes_of_err(entries, k, (n - 1) as nat);
    }
}

/// What removing one message queue gave.
#[derive(Debug, PartialEq, Eq, Clone, Copy, Structural)]
pub enum Removal {
    /// The queue was removed.
    Removed,
    /// There was no such queue.
    NotFound,
    /// The removal failed otherwise.
    Failed,
}

/// Which removal, among those of all the queues of a run, decides the
/// result: the last one that failed other than for want of the queue;
/// none where every queue was removed or did not exist.
pub fn last_failure(outcomes: &Vec<Removal>) -> (r: Option<usize>)
    ensures
        match r {
            Some(i) => i < outcomes@.len() && outcomes@[i as int] == Removal::Failed && forall|j: int|
                i < j < outcomes@.len() ==> outcomes@[j] != Removal::Failed,
            None => forall|j: int| 0 <= j < outcomes@.len() ==> outcomes@[j] != Removal::Failed,
        },
{
    let mut r: Option<usize> = None;
    let mut i: usize = 0;
    while i < outcomes.len()
        invariant
            0 <= i <= outcomes@.len(),
            match r {
                Some(k) => k < i && outcomes@[k as int] == Removal::Failed && forall|j: int|
                    k < j < i ==> outcomes@[j] != Removal::Failed,
                None => forall|j: int| 0 <= j < i ==> outcomes@[j] != Removal::Failed,
            },
        decreases outcomes@.len() - i,
    {
        if outcomes[i] == Removal::Failed {
            r = Some(i);
        }
        i = i + 1;
    }
    r
}

/// The configuration of a simulation.
#[derive(Debug)]
pub struct Config {
    pub nb_follower: usize,
    pub _qname: String,
    pub exe: Vec<Process>,
    pub random_number: u64,
    /// The path of the GML file of the topology, if the configuration names one.
    pub graph: Option<String>,
}

/// The texts of a list of processes.
pub open spec fn process_views(v: Seq<Process>) -> Seq<ProcessView> {
    v.map_values(|p: Process| p.view())
}

/// A configuration seen as values.
pub type ConfigView = (usize, Seq<char>, Seq<ProcessView>, u64, Option<Seq<char>>);

/// The configuration that a TOML document describes: `nb_follower` and
/// `random_number` (zero where absent), `qname` (empty where absent), the
/// processes of `executables.exe` and the path `graph`.
pub open spec fn config_of(v: TomlValue) -> Result<ConfigView, ConfigError> {
    match processes_of(exe_entries(v), exe_entries(v).len()) {
        Ok(ps) => Ok(
            (
                int_or_zero(v, "nb_follower"@) as usize,
                match as_str_opt(toml_get(v, "qname"@)) {
                    Some(q) => q,
                    None => Seq::empty(),
                },
                ps,
                int_or_zero(v, "random_number"@) as u64,
                as_str_opt(toml_get(v, "graph"@)),
            ),
        ),
        Err(e) => Err(e),
    }
}

impl Config {
    /// The configuration seen as values.
    pub open spec fn view(&self) -> ConfigView {
        (
            self.nb_follower,
            self._qname@,
            process_views(self.exe@),
            self.random_number,
            match self.graph {
                Some(g) => Some(g@),
                None => None,
            },
        )
    }

    /// The default configuration: two followers, a client and a server
    /// talking over 127.0.0.1:4443, queues named `/nts_test`, the random
    /// number 84 and the minimal topology.
    pub fn default_config() -> (r: Self)
        ensures
            r.nb_follower == 2,
            r._qname@ == "/nts_test"@,
            r.exe@.len() == 2,
            r.exe@[0].view() == ("name"@, "./client"@, seq!["./client"@, "-i"@, "127.0.0.1"@, "-p"@, "4443"@]),
            r.exe@[1].view() == ("name"@, "./server"@, seq!["./server"@, "-i"@, "127.0.0.1"@, "-p"@, "4443"@]),
            r.random_number == 84,
            r.graph is None,
    {
        let mut a1: Vec<String> = Vec::new();
        a1.push("./client".to_owned());
        a1.push("-i".to_owned());
        a1.push("127.0.0.1".to_owned());
        a1.push("-p".to_owned());
        a1.push("4443".to_owned());
        let mut a2: Vec<String> = Vec::new();
        a2.push("./server".to_owned());
        a2.push("-i".to_owned());
        a2.push("127.0.0.1".to_owned());
        a2.push("-p".to_owned());
        a2.push("4443".to_owned());
        let p1 = Process::new("name".to_owned(), "./client".to_owned(), a1);
        let p2 = Process::new("name".to_owned(), "./server".to_owned(), a2);
        assert(texts(p1.args@) =~= seq!["./client"@, "-i"@, "127.0.0.1"@, "-p"@, "4443"@]);
        assert(texts(p2.args@) =~= seq!["./server"@, "-i"@, "127.0.0.1"@, "-p"@, "4443"@]);
        let mut exe: Vec<Process> = Vec::new();
        exe.push(p1);
        exe.push(p2);
        Config {
            nb_follower: 2,
            _qname: "/nts_test".to_owned(),
            exe,
            random_number: 84,
            graph: None,
        }
    }

    /// Reads the configuration that a TOML text describes.
    pub fn from(content: &str) -> (r: Result<Config, ConfigError>)
        ensures
            match toml_document(content@) {
                None => r == Err::<Config, ConfigError>(ConfigError::Toml),
                Some(v) => match config_of(v) {
                    Ok(c) => r matches Ok(cfg) && cfg.view() == c,
                    Err(e) => r == Err::<Config, ConfigError>(e),
                },
            },
    {
        let value = match toml_from_str(content) {
            Ok(v) => v,
            Err(_) => return Err(ConfigError::Toml),
        };
        let nb_follower: usize = match get(&value, "nb_follower") {
            Some(TomlValue::Integer(i)) => *i as usize,
            _ => 0,
        };
        let qname = match get(&value, "qname") {
            Some(TomlValue::String(s)) => s.clone(),
            _ => String::new(),
        };
        let exe = match read_processes(&value) {
            Ok(exe) => exe,
            Err(e) => return Err(e),
        };
        let random_number: u64 = match get(&value, "random_number") {
            Some(TomlValue::Integer(i)) => *i as u64,
            _ => 0,
        };
        let graph = match get(&value, "graph") {
            Some(TomlValue::String(s)) => Some(s.clone()),
            _ => None,
        };
        let cfg = Config { nb_follower, _qname: qname, exe, random_number, graph };
        assert(cfg.view().1 =~= match as_str_opt(toml_get(value, "qname"@)) {
            Some(q) => q,
            None => Seq::empty(),
        });
        Ok(cfg)
    }
}

/// The entries of the array `exe` of the table `executables`.
fn exe_entries_of(value: &TomlValue) -> (r: Option<&Vec<TomlValue>>)
    ensures
        match r {
            Some(a) => exe_entries(*value) == a@,
            None => exe_entries(*value) == Seq::<TomlValue>::empty(),
        },
{
    match get(value, "executables") {
        Some(t) => match t {
            TomlValue::Table(_) => match get(t, "exe") {
                Some(TomlValue::Array(a)) => Some(a),
                _ => None,
            },
            _ => None,
        },
        None => None,
    }
}

/// Reads the process that an entry describes, checking that its texts can
/// be handed to the system.
fn read_process(e: &TomlValue) -> (r: Result<Option<Process>, ConfigError>)
    ensures
        match r {
            Ok(Some(p)) => entry_ok(*e) && process_of(*e) == Some(p.view()),
            Ok(None) => entry_ok(*e) && process_of(*e) is None,
            Err(err) => !entry_ok(*e) && err == ConfigError::InteriorNul,
        },
{
    match e {
        TomlValue::Table(_) => {
            let name = match get(e, "name") {
                Some(TomlValue::String(n)) => Some(n.as_str()),
                _ => None,
            };
            let path = match get(e, "path") {
                Some(TomlValue::String(p)) => Some(p.as_str()),
                _ => None,
            };
            let args = match get(e, "args") {
                Some(TomlValue::Array(a)) => Some(a),
                _ => None,
            };
            let ok = match name {
                None => true,
                Some(n) => is_cstr_ok(n) && match path {
                    None => true,
                    Some(p) => is_cstr_ok(p) && match args {
                        Some(a) => strings_cstr_ok(a),
                        None => true,
                    },
                },
            };
            if !ok {
                return Err(ConfigError::InteriorNul);
            }
            Ok(Process::optionable_new(name, path, args))
        },
        _ => Ok(None),
    }
}

/// Whether every string of `a` can be handed to the system as a C string.
fn strings_cstr_ok(a: &Vec<TomlValue>) -> (r: bool)
    ensures
        r == strings_ok(a@),
{
    let mut i: usize = 0;
    while i < a.len()
        invariant
            0 <= i <= a@.len(),
            forall|j: int| 0 <= j < i ==> (#[trigger] as_str(a@[j]) matches Some(s) ==> cstr_ok(s)),
        decreases a@.len() - i,
    {
        match &a[i] {
            TomlValue::String(s) => {
                if !is_cstr_ok(s.as_str()) {
                    assert(as_str(a@[i as int]) == Some(s@));
                    return false;
                }
            },
            _ => {},
        }
        i = i + 1;
    }
    true
}

/// Reads the processes of the entries of `executables.exe`, in order.
fn read_processes(value: &TomlValue) -> (r: Result<Vec<Process>, ConfigError>)
    ensures
        match r {
            Ok(v) => processes_of(exe_entries(*value), exe_entries(*value).len()) == Ok::<
                Seq<ProcessView>,
                ConfigError,
            >(process_views(v@)),
            Err(e) => processes_of(exe_entries(*value), exe_entries(*value).len()) == Err::<
                Seq<ProcessView>,
                ConfigError,
            >(e),
        },
{
    let mut exe: Vec<Process> = Vec::new();
    let entries = match exe_entries_of(value) {
        Some(a) => a,
        None => {
            assert(process_views(exe@) =~= Seq::<ProcessView>::empty());
            return Ok(exe);
        },
    };
    assert(process_views(exe@) =~= Seq::<ProcessView>::empty());
    let mut i: usize = 0;
    while i < entries.len()
        invariant
            0 <= i <= entries@.len(),
            exe_entries(*value) == entries@,
            processes_of(entries@, i as nat) == Ok::<Seq<ProcessView>, ConfigError>(process_views(exe@)),
        decreases entries@.len() - i,
    {
        match read_process(&entries[i]) {
            Ok(Some(p)) => {
                let ghost before = exe@;
                exe.push(p);
                assert(process_views(exe@) =~= process_views(before).push(p.view()));
            },
            Ok(None) => {},
            Err(e) => {
                proof {
                    lemma_processes_of_err(entries@, (i + 1) as nat, entries@.len());
                }
                return Err(e);
            },
        }
        i = i + 1;
    }
    Ok(exe)
}

} // verus!
