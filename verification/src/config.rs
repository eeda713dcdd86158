//! The sender's configuration: its defaults, and what is read out of it.
use vstd::prelude::*;

use crate::geometry::Edge;
use crate::text::{from_chars, same_text, to_chars};

verus! {

/// The `[sender]` section of the configuration file.
#[derive(Debug)]
pub struct SenderConfig {
    /// Single receiver address.
    pub receiver_host: Option<String>,
    /// Multiple receiver addresses, tried in order.
    pub receiver_hosts: Option<Vec<String>>,
    pub receiver_port: u16,
    /// Single monitor name.
    pub monitor: Option<String>,
    /// Multiple monitor names; their edges together form one virtual edge.
    pub monitors: Option<Vec<String>>,
    pub edge: String,
    pub keyboard_device: Option<String>,
    pub heartbeat: HeartbeatConfig,
}

/// How often the connection is probed, and how many probes may go unanswered.
#[derive(Debug, Clone, Copy, PartialEq, Eq, Structural)]
pub struct HeartbeatConfig {
    pub active_interval_ms: u64,
    pub idle_interval_ms: u64,
    pub miss_threshold: u32,
}

impl Default for HeartbeatConfig {
    fn default() -> (config: Self)
        ensures
            config == (HeartbeatConfig {
                active_interval_ms: 1000,
                idle_interval_ms: 5000,
                miss_threshold: 3,
            }),
    {
        HeartbeatConfig {
            active_interval_ms: default_active_ms(),
            idle_interval_ms: default_idle_ms(),
            miss_threshold: default_miss_threshold(),
        }
    }
}

/// Milliseconds between heartbeats while capturing.
pub fn default_active_ms() -> (ms: u64)
    ensures
        ms == 1000,
{
    1000
}

/// Milliseconds between heartbeats while idle.
pub fn default_idle_ms() -> (ms: u64)
    ensures
        ms == 5000,
{
    5000
}

/// How many heartbeats may go unanswered.
pub fn default_miss_threshold() -> (count: u32)
    ensures
        count == 3,
{
    3
}

/// What `str::to_lowercase` of std makes of a string.
pub uninterp spec fn lowercase(s: Seq<char>) -> Seq<char>;

/// Whether a string consists of ASCII characters.
pub open spec fn ascii(s: Seq<char>) -> bool {
    forall|i: int| 0 <= i < s.len() ==> (#[trigger] s[i] as int) < 0x80
}

/// An ASCII character with capital letters made small.
pub open spec fn small(c: char) -> char {
    if 'A' <= c <= 'Z' {
        (c as int + 0x20) as char
    } else {
        c
    }
}

/// Lowers the case of a string, with `str::to_lowercase` of std: the result depends on the
/// string alone, and of an ASCII string it is the string with capital letters made small.
/// What becomes of other characters is not stated.
#[verifier::external_body]
fn lowered(s: &str) -> (r: String)
    ensures
        r@ == lowercase(s@),
        ascii(s@) ==> r@ == s@.map_values(|c: char| small(c)),
{
    s.to_lowercase()
}

/// The edge of a given name.
pub open spec fn edge_named(name: Seq<char>) -> Option<Edge> {
    if name == "left"@ {
        Some(Edge::Left)
    } else if name == "right"@ {
        Some(Edge::Right)
    } else if name == "top"@ {
        Some(Edge::Top)
    } else if name == "bottom"@ {
        Some(Edge::Bottom)
    } else {
        None
    }
}

/// The edge of a given name, written in small letters.
pub fn edge_by_name(name: &str) -> (edge: Option<Edge>)
    ensures
        edge == edge_named(name@),
{
    if same_text(name, "left") {
        Some(Edge::Left)
    } else if same_text(name, "right") {
        Some(Edge::Right)
    } else if same_text(name, "top") {
        Some(Edge::Top)
    } else if same_text(name, "bottom") {
        Some(Edge::Bottom)
    } else {
        None
    }
}

/// The edge that a configured name means, whatever its case.
pub fn parse_edge(s: &str) -> (r: Result<Edge, String>)
    ensures
        match r {
            Ok(edge) => edge_named(lowercase(s@)) == Some(edge),
            Err(message) => edge_named(lowercase(s@)) is None && message@ == "invalid edge: '"@
                + s@ + "' (expected left/right/top/bottom)"@,
        },
        ascii(s@) ==> edge_named(s@.map_values(|c: char| small(c))) == (match r {
            Ok(edge) => Some(edge),
            Err(_) => None,
        }),
{
    let name: String = lowered(s);
    match edge_by_name(name.as_str()) {
        Some(edge) => Ok(edge),
        None => Err(
            "invalid edge: '".to_owned().concat(s).concat("' (expected left/right/top/bottom)"),
        ),
    }
}

/// The monitors whose edges form the crossing edge: those of the list, or the single one.
/// Exactly one of the two is to be set.
pub fn resolve_monitors(cfg: &SenderConfig) -> (r: Result<Vec<String>, String>)
    ensures
        match (cfg.monitors, cfg.monitor) {
            (Some(list), single) => if list@.len() == 0 {
                r matches Err(message) && message@
                    == "`monitors` is empty; list at least one monitor"@
            } else if single is Some {
                r matches Err(message) && message@
                    == "config must not set both `monitor` and `monitors` in [sender]"@
            } else {
                r matches Ok(monitors) && monitors@ == list@
            },
            (None, Some(m)) => r matches Ok(monitors) && monitors@ == seq![m],
            (None, None) => r matches Err(message) && message@
                == "config must set either `monitor` or `monitors` in [sender]"@,
        },
        r is Ok <==> (cfg.monitor is Some) != (cfg.monitors is Some) && (cfg.monitors matches Some(
            list,
        ) ==> list@.len() > 0),
        r matches Ok(monitors) ==> monitors@.len() > 0,
{
    if let Some(list) = &cfg.monitors {
        if list.len() == 0 {
            return Err("`monitors` is empty; list at least one monitor".to_owned());
        }
        if cfg.monitor.is_some() {
            return Err(
                "config must not set both `monitor` and `monitors` in [sender]".to_owned(),
            );
        }
        return Ok(copied(list));
    }
    if let Some(m) = &cfg.monitor {
        let mut single: Vec<String> = Vec::new();
        single.push(m.clone());
        assert(single@ =~= seq![*m]);
        return Ok(single);
    }
    Err("config must set either `monitor` or `monitors` in [sender]".to_owned())
}

/// A copy of a list of strings.
fn copied(list: &Vec<String>) -> (copy: Vec<String>)
    ensures
        copy@ == list@,
{
    let mut copy: Vec<String> = Vec::new();
    let mut i: usize = 0;
    while i < list.len()
        invariant
            i <= list@.len(),
            copy@ == list@.take(i as int),
        decreases list@.len() - i,
    {
        copy.push(list[i].clone());
        i += 1;
        assert(copy@ =~= list@.take(i as int));
    }
    assert(list@.take(i as int) =~= list@);
    copy
}

/// The texts of a list of strings.
pub open spec fn texts(list: Seq<String>) -> Seq<Seq<char>> {
    list.map_values(|s: String| s@)
}

/// A list, extended by each text of another that is not in it yet.
pub open spec fn extended(hosts: Seq<Seq<char>>, extra: Seq<Seq<char>>) -> Seq<Seq<char>>
    decreases extra.len(),
{
    if extra.len() == 0 {
        hosts
    } else {
        let before = extended(hosts, extra.drop_last());
        if before.contains(extra.last()) {
            before
        } else {
            before.push(extra.last())
        }
    }
}

impl SenderConfig {
    /// The receiver addresses in the order in which they are tried: the single one first,
    /// and then those of the list, each once.
    pub open spec fn hosts(self) -> Seq<Seq<char>> {
        let first: Seq<Seq<char>> = match self.receiver_host {
            Some(host) => seq![host@],
            None => seq![],
        };
        match self.receiver_hosts {
            Some(extra) => extended(first, texts(extra@)),
            None => first,
        }
    }
}

/// Whether a list of strings holds a text.
fn holds(list: &Vec<String>, text: &String) -> (b: bool)
    ensures
        b == texts(list@).contains(text@),
{
    let mut i: usize = 0;
    while i < list.len()
        invariant
            i <= list@.len(),
            forall|k: int| 0 <= k < i ==> (#[trigger] texts(list@)[k]) != text@,
        decreases list@.len() - i,
    {
        assert(texts(list@)[i as int] == list@[i as int]@);
        if list[i] == *text {
            return true;
        }
        i += 1;
    }
    false
}

/// The receiver addresses in the order in which they are tried.
pub fn resolve_hosts(cfg: &SenderConfig) -> (r: Result<Vec<String>, String>)
    ensures
        match r {
            Ok(hosts) => cfg.hosts().len() > 0 && texts(hosts@) == cfg.hosts(),
            Err(message) => cfg.hosts().len() == 0 && message@
                == "config must set receiver_host or receiver_hosts"@,
        },
        r is Ok <==> cfg.receiver_host is Some || (cfg.receiver_hosts matches Some(list)
            && list@.len() > 0),
{
    let mut hosts: Vec<String> = Vec::new();
    if let Some(host) = &cfg.receiver_host {
        hosts.push(host.clone());
    }
    let ghost first = texts(hosts@);
    assert(first =~= match cfg.receiver_host {
        Some(host) => seq![host@],
        None => seq![],
    });
    if let Some(extra) = &cfg.receiver_hosts {
        let mut i: usize = 0;
        assert(texts(extra@).take(0) =~= seq![]);
        while i < extra.len()
            invariant
                i <= extra@.len(),
                texts(hosts@) == extended(first, texts(extra@).take(i as int)),
            decreases extra@.len() - i,
        {
            let ghost before = hosts@;
            assert(texts(extra@).take(i + 1).drop_last() =~= texts(extra@).take(i as int));
            assert(texts(extra@).take(i + 1).last() == extra@[i as int]@);
            if !holds(&hosts, &extra[i]) {
                hosts.push(extra[i].clone());
                assert(texts(hosts@) =~= texts(before).push(extra@[i as int]@));
            }
            i += 1;
        }
        assert(texts(extra@).take(i as int) =~= texts(extra@));
    }
    proof {
        hosts_are_tried_once(*cfg);
        if let Some(list) = &cfg.receiver_hosts {
            if list@.len() > 0 {
                assert(texts(list@).contains(texts(list@)[0]));
                assert(cfg.hosts().contains(texts(list@)[0]));
            } else {
                assert(texts(list@) =~= seq![]);
            }
        }
    }
    if hosts.len() == 0 {
        return Err("config must set receiver_host or receiver_hosts".to_owned());
    }
    Ok(hosts)
}

/// No address is tried twice, and every configured one is tried: the single one first.
pub proof fn hosts_are_tried_once(cfg: SenderConfig)
    ensures
        cfg.hosts().no_duplicates(),
        forall|t: Seq<char>| #[trigger]
            cfg.hosts().contains(t) <==> (cfg.receiver_host matches Some(host) && host@ == t) || (
            cfg.receiver_hosts matches Some(list) && texts(list@).contains(t)),
        cfg.receiver_host matches Some(host) ==> cfg.hosts().len() > 0 && cfg.hosts()[0] == host@,
{
    let first: Seq<Seq<char>> = match cfg.receiver_host {
        Some(host) => seq![host@],
        None => seq![],
    };
    assert(forall|t: Seq<char>| #[trigger]
        first.contains(t) <==> (cfg.receiver_host matches Some(host) && host@ == t)) by {
        if cfg.receiver_host is Some {
            assert(first[0] == cfg.receiver_host->0@);
        }
    }
    if let Some(list) = cfg.receiver_hosts {
        lemma_extended(first, texts(list@));
    }
}

proof fn lemma_extended(hosts: Seq<Seq<char>>, extra: Seq<Seq<char>>)
    requires
        hosts.no_duplicates(),
    ensures
        extended(hosts, extra).no_duplicates(),
        forall|t: Seq<char>| #[trigger]
            extended(hosts, extra).contains(t) <==> hosts.contains(t) || extra.contains(t),
        hosts.len() <= extended(hosts, extra).len(),
        extended(hosts, extra).take(hosts.len() as int) == hosts,
    decreases extra.len(),
{
    if extra.len() == 0 {
        assert(hosts.take(hosts.len() as int) =~= hosts);
    } else {
        let rest = extra.drop_last();
        let before = extended(hosts, rest);
        let after = extended(hosts, extra);
        lemma_extended(hosts, rest);
        assert(after.take(hosts.len() as int) =~= before.take(hosts.len() as int));
        assert forall|t: Seq<char>| #[trigger] after.contains(t) <==> hosts.contains(t)
            || extra.contains(t) by {
            assert(extra =~= rest.push(extra.last()));
            assert(extra[extra.len() - 1] == extra.last());
            if rest.contains(t) {
                let k = choose|k: int| 0 <= k < rest.len() && rest[k] == t;
                assert(extra[k] == t);
            }
            if before.contains(t) {
                let k = choose|k: int| 0 <= k < before.len() && before[k] == t;
                assert(after[k] == t);
            }
            if extra.contains(t) && t != extra.last() {
                let k = choose|k: int| 0 <= k < extra.len() && extra[k] == t;
                assert(rest[k] == t);
            }
            if !before.contains(extra.last()) {
                assert(after[before.len() as int] == extra.last());
            }
        }
    }
}

/// A digit in decimal notation.
pub open spec fn digit(d: int) -> char {
    ('0' as int + d) as char
}

/// A number in decimal notation.
pub open spec fn decimal(n: nat) -> Seq<char>
    decreases n,
{
    if n < 10 {
        seq![digit(n as int)]
    } else {
        decimal(n / 10).push(digit((n % 10) as int))
    }
}

fn digit_char(d: u16) -> (c: char)
    requires
        d < 10,
    ensures
        c == digit(d as int),
{
    match d {
        0 => '0',
        1 => '1',
        2 => '2',
        3 => '3',
        4 => '4',
        5 => '5',
        6 => '6',
        7 => '7',
        8 => '8',
        _ => '9',
    }
}

fn decimal_chars(n: u16) -> (chars: Vec<char>)
    ensures
        chars@ == decimal(n as nat),
    decreases n,
{
    if n < 10 {
        let mut chars: Vec<char> = Vec::new();
        chars.push(digit_char(n));
        assert(chars@ =~= decimal(n as nat));
        chars
    } else {
        let mut chars: Vec<char> = decimal_chars(n / 10);
        chars.push(digit_char(n % 10));
        chars
    }
}

/// A receiver's address and port, as they are written together.
pub fn address_text(host: &str, port: u16) -> (text: String)
    ensures
        text@ == host@ + ":"@ + decimal(port as nat),
{
    let digits: String = from_chars(&decimal_chars(port));
    host.to_owned().concat(":").concat(digits.as_str())
}

/// What a relative path means from a directory, and an absolute path from anywhere.
pub open spec fn path_joined(base: Seq<char>, rest: Seq<char>) -> Seq<char> {
    if rest.len() > 0 && rest[0] == '/' {
        rest
    } else if base.len() > 0 && base.last() != '/' {
        base + "/"@ + rest
    } else {
        base + rest
    }
}

/// What a path means to a user with the given home directory: `~/` at its start stands for
/// that directory.
pub open spec fn path_expanded(path: Seq<char>, home: Option<Seq<char>>) -> Seq<char> {
    match home {
        Some(dir) if path.len() >= 2 && path[0] == '~' && path[1] == '/' => path_joined(
            dir,
            path.skip(2),
        ),
        _ => path,
    }
}

/// The path with `~/` at its start replaced by the home directory: the one that the
/// environment gives, else the one that the user database gives. Where neither gives one,
/// the path stays as it is.
pub fn expand_path(path: &str, env_home: Option<&str>, passwd_home: Option<&str>) -> (expanded:
    String)
    ensures
        expanded@ == path_expanded(
            path@,
            match (env_home, passwd_home) {
                (Some(dir), _) => Some(dir@),
                (None, Some(dir)) => Some(dir@),
                (None, None) => None,
            },
        ),
{
    let home: Option<&str> = match env_home {
        Some(dir) => Some(dir),
        None => passwd_home,
    };
    let chars: Vec<char> = to_chars(path);
    if chars.len() >= 2 && chars[0] == '~' && chars[1] == '/' {
        if let Some(dir) = home {
            let mut rest: Vec<char> = Vec::new();
            let mut i: usize = 2;
            while i < chars.len()
                invariant
                    2 <= i <= chars@.len(),
                    rest@ == chars@.subrange(2, i as int),
                decreases chars@.len() - i,
            {
                rest.push(chars[i]);
                i += 1;
                assert(rest@ =~= chars@.subrange(2, i as int));
            }
            assert(rest@ =~= path@.skip(2));
            return join_path(dir, &rest);
        }
    }
    path.to_owned()
}

fn join_path(base: &str, rest: &Vec<char>) -> (joined: String)
    ensures
        joined@ == path_joined(base@, rest@),
{
    let tail: String = from_chars(rest);
    if rest.len() > 0 && rest[0] == '/' {
        return tail;
    }
    let base_chars: Vec<char> = to_chars(base);
    if base_chars.len() > 0 && base_chars[base_chars.len() - 1] != '/' {
        base.to_owned().concat("/").concat(tail.as_str())
    } else {
        base.to_owned().concat(tail.as_str())
    }
}

/// The four edges have their names, and nothing else names an edge.
pub proof fn edges_have_their_names(name: Seq<char>)
    ensures
        name == "left"@ ==> edge_named(name) == Some(Edge::Left),
        name == "right"@ ==> edge_named(name) == Some(Edge::Right),
        name == "top"@ ==> edge_named(name) == Some(Edge::Top),
        name == "bottom"@ ==> edge_named(name) == Some(Edge::Bottom),
        edge_named(name) is Some ==> name == "left"@ || name == "right"@ || name == "top"@ || name
            == "bottom"@,
{
    reveal_strlit("left");
    reveal_strlit("right");
    reveal_strlit("top");
    reveal_strlit("bottom");
    assert("left"@.len() == 4 && "right"@.len() == 5 && "top"@.len() == 3 && "bottom"@.len() == 6);
}

/// Capital letters become their small ones, and nothing else changes: the case of an ASCII
/// letter does not matter, and making letters small a second time changes nothing.
pub proof fn capitals_become_small(c: char)
    requires
        (c as int) < 0x80,
    ensures
        'A' <= c <= 'Z' ==> small(c) as int == c as int + 32,
        !('A' <= c <= 'Z') ==> small(c) == c,
        small(small(c)) == small(c),
{
}

/// A later address is tried behind the earlier ones, unless it is among them already.
pub proof fn addresses_are_added_once(hosts: Seq<Seq<char>>, extra: Seq<Seq<char>>, host: Seq<char>)
    ensures
        extended(hosts, Seq::empty()) == hosts,
        extended(hosts, extra).contains(host) ==> extended(hosts, extra.push(host)) == extended(
            hosts,
            extra,
        ),
        !extended(hosts, extra).contains(host) ==> extended(hosts, extra.push(host)) == extended(
            hosts,
            extra,
        ).push(host),
{
    assert(extra.push(host).drop_last() =~= extra);
}

/// The number that decimal digits make.
pub open spec fn number_of(digits: Seq<char>) -> int
    decreases digits.len(),
{
    if digits.len() == 0 {
        0
    } else {
        number_of(digits.drop_last()) * 10 + (digits.last() as int - '0' as int)
    }
}

/// Decimal notation holds digits only, makes the number again, and has no leading zero.
pub proof fn decimal_makes_the_number_again(n: nat)
    ensures
        number_of(decimal(n)) == n,
        decimal(n).len() > 0,
        forall|i: int| 0 <= i < decimal(n).len() ==> '0' <= #[trigger] decimal(n)[i] <= '9',
        n > 0 ==> decimal(n)[0] != '0',
        n == 0 ==> decimal(n) == seq!['0'],
    decreases n,
{
    reveal_with_fuel(number_of, 2);
    if n < 10 {
        assert(decimal(n).drop_last() =~= Seq::<char>::empty());
    } else {
        decimal_makes_the_number_again(n / 10);
        assert(decimal(n).drop_last() =~= decimal(n / 10));
    }
}

/// A path joined to a directory starts with the directory and ends with the path, with one
/// separator between them where the directory is not empty; an absolute path stays as it is.
pub proof fn paths_are_joined_by_one_separator(base: Seq<char>, rest: Seq<char>)
    ensures
        rest.len() > 0 && rest[0] == '/' ==> path_joined(base, rest) == rest,
        rest.len() == 0 || rest[0] != '/' ==> {
            let path = path_joined(base, rest);
            &&& base.len() <= path.len()
            &&& path.take(base.len() as int) == base
            &&& path.skip(path.len() - rest.len()) == rest
            &&& base.len() == 0 ==> path == rest
            &&& base.len() > 0 && base.last() == '/' ==> path.len() == base.len() + rest.len()
            &&& base.len() > 0 && base.last() != '/' ==> path.len() == base.len() + 1 + rest.len()
                && path[base.len() as int] == '/'
        },
{
    reveal_strlit("/");
    let path = path_joined(base, rest);
    if rest.len() == 0 || rest[0] != '/' {
        assert(path.take(base.len() as int) =~= base);
        assert(path.skip(path.len() - rest.len()) =~= rest);
        if base.len() == 0 {
            assert(path =~= rest);
        }
    }
}

/// `~/` at the start of a path stands for the home directory, if there is one; every other path
/// stays as it is.
pub proof fn tilde_stands_for_home(rest: Seq<char>, path: Seq<char>, dir: Seq<char>)
    requires
        path.len() < 2 || path[0] != '~' || path[1] != '/',
    ensures
        path_expanded(seq!['~', '/'] + rest, Some(dir)) == path_joined(dir, rest),
        path_expanded(seq!['~', '/'] + rest, None) == seq!['~', '/'] + rest,
        path_expanded(path, Some(dir)) == path,
        path_expanded(path, None) == path,
{
    assert((seq!['~', '/'] + rest).skip(2) =~= rest);
}

/// The addresses are tried in the order in which they are configured: one more in the list comes
/// last, unless it is there already; and without a list there is the single one, or none.
pub proof fn hosts_keep_their_order(cfg: SenderConfig, longer: SenderConfig, host: Seq<char>)
    requires
        cfg.receiver_host == longer.receiver_host,
        cfg.receiver_hosts matches Some(list) && longer.receiver_hosts matches Some(more)
            && more@.len() == list@.len() + 1 && (forall|i: int|
            0 <= i < list@.len() ==> (#[trigger] more@[i])@ == list@[i]@)
            && more@[list@.len() as int]@ == host,
    ensures
        cfg.hosts().contains(host) ==> longer.hosts() == cfg.hosts(),
        !cfg.hosts().contains(host) ==> longer.hosts() == cfg.hosts().push(host),
        cfg.receiver_hosts->0@.len() == 0 ==> cfg.hosts() == (match cfg.receiver_host {
            Some(single) => seq![single@],
            None => seq![],
        }),
{
    let list = texts(cfg.receiver_hosts->0@);
    let more = texts(longer.receiver_hosts->0@);
    assert(more =~= list.push(host));
    assert(list.push(host).drop_last() =~= list);
}

/// Without a list, the single address is the only one.
pub proof fn a_single_host_is_the_only_one(cfg: SenderConfig, list: Seq<String>, i: int)
    requires
        cfg.receiver_hosts is None,
        0 <= i < list.len(),
    ensures
        cfg.receiver_host matches Some(single) ==> cfg.hosts() == seq![single@],
        cfg.receiver_host is None ==> cfg.hosts().len() == 0,
        texts(list).len() == list.len(),
        texts(list)[i] == list[i]@,
{
}

} // verus!
