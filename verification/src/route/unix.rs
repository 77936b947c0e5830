//! Default routes and route lookups read from the text that the `netstat
//! -rn` and `route -n get` commands print on macOS and other BSD systems.
use vstd::prelude::*;
use regex::Regex;
use crate::iface::NetFamily;
use crate::ip::IpAddr;
use crate::rtmsg::{string_from_utf8_lossy, utf8_lossy};
use crate::text::{
    chars_of, lines_chars, lines_of, split_chars, split_on, starts_with, starts_with_chars, string_of,
    trim, trim_chars,
};

verus! {

/// What the `regex` crate finds when the pattern `pattern` is matched
/// against `line`: `None` when it does not match, else the texts of the
/// groups named `a` and `b`, each if it took part in the match.
pub uninterp spec fn regex_named_captures(
    pattern: Seq<char>,
    line: Seq<char>,
    a: Seq<char>,
    b: Seq<char>,
) -> Option<(Option<Seq<char>>, Option<Seq<char>>)>;

/// `Regex::new(pattern)`, `captures(line)` and `name` for the groups `a`
/// and `b`: what the match gives depends on the arguments alone, and is
/// named by `regex_named_captures`. A pattern that does not compile
/// matches nothing here.
#[verifier::external_body]
fn regex_captures(pattern: &str, line: &str, a: &str, b: &str) -> (r: Option<(Option<String>, Option<String>)>)
    ensures
        match r {
            None => regex_named_captures(pattern@, line@, a@, b@) is None,
            Some((x, y)) => regex_named_captures(pattern@, line@, a@, b@) == Some(
                (
                    match x {
                        Some(t) => Some(t@),
                        None => None::<Seq<char>>,
                    },
                    match y {
                        Some(t) => Some(t@),
                        None => None::<Seq<char>>,
                    },
                ),
            ),
        },
{
    let re = match Regex::new(pattern) {
        Ok(re) => re,
        Err(_) => return None,
    };
    match re.captures(line) {
        Some(caps) => Some((
            caps.name(a).map(|m| m.as_str().to_owned()),
            caps.name(b).map(|m| m.as_str().to_owned()),
        )),
        None => None,
    }
}

/// The pattern of a default-route line of `netstat -rn`: the word
/// `default`, the gateway (group `via`, with an optional `%zone`), the
/// flags, and the interface (group `dev`).
pub const DEFAULT_ROUTE_PATTERN: &'static str = r"^default\s+(?P<via>[\w\d:.]+)(%[\w\d]+)?\s+\w+\s+(?P<dev>[\w\d]+)$";

/// A default route as `netstat -rn` prints it: the gateway text, the
/// family (IPv6 when the gateway text holds a colon) and the interface.
#[derive(Debug, Clone)]
pub struct DefaultRouteText {
    pub via: Option<String>,
    pub family: NetFamily,
    pub if_name: Option<String>,
}

impl View for DefaultRouteText {
    type V = (Option<Seq<char>>, NetFamily, Option<Seq<char>>);

    open spec fn view(&self) -> Self::V {
        (
            match self.via {
                Some(t) => Some(t@),
                None => None,
            },
            self.family,
            match self.if_name {
                Some(t) => Some(t@),
                None => None,
            },
        )
    }
}

/// `c` occurs in `s`.
pub open spec fn has_char(s: Seq<char>, c: char) -> bool {
    exists|i: int| 0 <= i < s.len() && s[i] == c
}

/// The default route that a trimmed line describes, if the line matches
/// the pattern.
pub open spec fn default_route_of_line(line: Seq<char>) -> Option<(Option<Seq<char>>, NetFamily, Option<Seq<char>>)> {
    match regex_named_captures(DEFAULT_ROUTE_PATTERN@, line, "via"@, "dev"@) {
        None => None,
        Some((via, dev)) => Some(
            (
                via,
                match via {
                    Some(t) => if has_char(t, ':') {
                        NetFamily::Ipv6
                    } else {
                        NetFamily::Ipv4
                    },
                    None => NetFamily::Ipv4,
                },
                dev,
            ),
        ),
    }
}

/// The default routes of the lines `ls`, each trimmed, in order.
pub open spec fn default_routes_of_lines(ls: Seq<Seq<char>>) -> Seq<(Option<Seq<char>>, NetFamily, Option<Seq<char>>)>
    decreases ls.len(),
{
    if ls.len() == 0 {
        Seq::empty()
    } else {
        let prev = default_routes_of_lines(ls.drop_last());
        match default_route_of_line(trim(ls.last())) {
            Some(r) => prev.push(r),
            None => prev,
        }
    }
}

/// Whether `c` occurs in `v`.
fn contains_char(v: &Vec<char>, c: char) -> (r: bool)
    ensures
        r == has_char(v@, c),
{
    for i in 0..v.len()
        invariant
            forall|j: int| 0 <= j < i ==> v@[j] != c,
    {
        if v[i] == c {
            return true;
        }
    }
    false
}

/// The default routes that `netstat -rn` printed (its standard output,
/// decoded with replacement of invalid UTF-8): every line that, trimmed,
/// matches `DEFAULT_ROUTE_PATTERN` gives one, in order.
pub fn get_net_routes(stdout: &Vec<u8>) -> (r: Vec<DefaultRouteText>)
    ensures
        r@.map_values(|d: DefaultRouteText| d@) == default_routes_of_lines(lines_of(utf8_lossy(stdout@))),
{
    let text = string_from_utf8_lossy(stdout);
    let chars = chars_of(text.as_str());
    let lines = lines_chars(&chars);
    let ghost ls = lines_of(utf8_lossy(stdout@));
    let mut rets: Vec<DefaultRouteText> = Vec::new();
    assert(ls.take(0) =~= Seq::<Seq<char>>::empty());
    assert(rets@.map_values(|d: DefaultRouteText| d@) =~= Seq::empty());
    for i in 0..lines.len()
        invariant
            lines@.len() == ls.len(),
            forall|j: int| 0 <= j < lines@.len() ==> #[trigger] lines@[j]@ == ls[j],
            rets@.map_values(|d: DefaultRouteText| d@) == default_routes_of_lines(ls.take(i as int)),
    {
        assert(ls.take(i + 1).drop_last() =~= ls.take(i as int));
        assert(ls.take(i + 1).last() == ls[i as int]);
        let line = string_of(&trim_chars(&lines[i]));
        let ghost before = rets@.map_values(|d: DefaultRouteText| d@);
        if let Some((via, dev)) = regex_captures(DEFAULT_ROUTE_PATTERN, line.as_str(), "via", "dev") {
            let family = match &via {
                Some(via_str) => {
                    if contains_char(&chars_of(via_str.as_str()), ':') {
                        NetFamily::Ipv6
                    } else {
                        NetFamily::Ipv4
                    }
                },
                None => NetFamily::Ipv4,
            };
            let d = DefaultRouteText { via, family, if_name: dev };
            let ghost dv = d@;
            rets.push(d);
            assert(rets@.map_values(|d: DefaultRouteText| d@) =~= before.push(dv));
        }
    }
    assert(ls.take(lines.len() as int) =~= ls);
    rets
}

/// The piece after the first colon of a line, trimmed, if the line has a
/// colon.
pub open spec fn field_value(line: Seq<char>) -> Option<Seq<char>> {
    let parts = split_on(line, ':');
    if parts.len() >= 2 {
        Some(trim(parts[1]))
    } else {
        None
    }
}

/// What `route -n get` printed, as far as the route lookup reads it: the
/// last `interface:` value, and every non-empty `gateway:` value in order.
#[derive(Debug, Clone)]
pub struct SearchRouteText {
    pub interface: Option<String>,
    pub gateways: Vec<String>,
}

/// The interface of the lines `ls` (trimmed): the value of the last line
/// that starts with `interface:` and has a value.
pub open spec fn interface_of_lines(ls: Seq<Seq<char>>) -> Option<Seq<char>>
    decreases ls.len(),
{
    if ls.len() == 0 {
        None
    } else {
        let line = trim(ls.last());
        if starts_with(line, "interface:"@) && field_value(line) is Some {
            field_value(line)
        } else {
            interface_of_lines(ls.drop_last())
        }
    }
}

/// The non-empty values of the lines of `ls` (trimmed) that start with
/// `gateway:`, in order.
pub open spec fn gateways_of_lines(ls: Seq<Seq<char>>) -> Seq<Seq<char>>
    decreases ls.len(),
{
    if ls.len() == 0 {
        Seq::empty()
    } else {
        let prev = gateways_of_lines(ls.drop_last());
        let line = trim(ls.last());
        if starts_with(line, "gateway:"@) && field_value(line) is Some && field_value(line).unwrap().len() > 0 {
            prev.push(field_value(line).unwrap())
        } else {
            prev
        }
    }
}

/// The value after the first colon of `line`, trimmed, if there is one.
fn field_value_of(line: &Vec<char>) -> (r: Option<Vec<char>>)
    ensures
        match r {
            Some(v) => field_value(line@) == Some(v@),
            None => field_value(line@) is None,
        },
{
    let parts = split_chars(line, ':');
    if parts.len() >= 2 {
        Some(trim_chars(&parts[1]))
    } else {
        None
    }
}

/// Reads what `route -n get` printed (its standard output, decoded with
/// replacement of invalid UTF-8): the interface of the last `interface:`
/// line, and the values of the `gateway:` lines, for the caller to read as
/// addresses in order.
pub fn search_route(stdout: &Vec<u8>) -> (r: SearchRouteText)
    ensures
        match r.interface {
            Some(t) => interface_of_lines(lines_of(utf8_lossy(stdout@))) == Some(t@),
            None => interface_of_lines(lines_of(utf8_lossy(stdout@))) is None,
        },
        r.gateways@.map_values(|g: String| g@) == gateways_of_lines(lines_of(utf8_lossy(stdout@))),
{
    let text = string_from_utf8_lossy(stdout);
    let chars = chars_of(text.as_str());
    let lines = lines_chars(&chars);
    let ghost ls = lines_of(utf8_lossy(stdout@));
    let interface_prefix = chars_of("interface:");
    let gateway_prefix = chars_of("gateway:");
    let mut interface: Option<String> = None;
    let mut gateways: Vec<String> = Vec::new();
    assert(ls.take(0) =~= Seq::<Seq<char>>::empty());
    assert(gateways@.map_values(|g: String| g@) =~= Seq::empty());
    for i in 0..lines.len()
        invariant
            lines@.len() == ls.len(),
            forall|j: int| 0 <= j < lines@.len() ==> #[trigger] lines@[j]@ == ls[j],
            interface_prefix@ == "interface:"@,
            gateway_prefix@ == "gateway:"@,
            match interface {
                Some(t) => interface_of_lines(ls.take(i as int)) == Some(t@),
                None => interface_of_lines(ls.take(i as int)) is None,
            },
            gateways@.map_values(|g: String| g@) == gateways_of_lines(ls.take(i as int)),
    {
        assert(ls.take(i + 1).drop_last() =~= ls.take(i as int));
        assert(ls.take(i + 1).last() == ls[i as int]);
        let line = trim_chars(&lines[i]);
        if starts_with_chars(&line, &interface_prefix) {
            if let Some(v) = field_value_of(&line) {
                interface = Some(string_of(&v));
            }
        }
        if starts_with_chars(&line, &gateway_prefix) {
            if let Some(v) = field_value_of(&line) {
                if v.len() > 0 {
                    let ghost before = gateways@.map_values(|g: String| g@);
                    let g = string_of(&v);
                    let ghost gv = g@;
                    gateways.push(g);
                    assert(gateways@.map_values(|g: String| g@) =~= before.push(gv));
                }
            }
        }
    }
    assert(ls.take(lines.len() as int) =~= ls);
    SearchRouteText { interface, gateways }
}

/// The gateway chosen from the `gateway:` values of `route -n get` once each
/// has been read as an address (`None` where it is not one): `Err` with the
/// index of the first value that is not an address, else the last address,
/// or `None` when there was no value.
pub fn pick_gateway(parsed: &Vec<Option<IpAddr>>) -> (r: Result<Option<IpAddr>, usize>)
    ensures
        match r {
            Err(i) => 0 <= i < parsed@.len() && parsed@[i as int] is None && forall|j: int|
                0 <= j < i ==> (#[trigger] parsed@[j]) is Some,
            Ok(g) => (forall|j: int| 0 <= j < parsed@.len() ==> (#[trigger] parsed@[j]) is Some)
                && g == (if parsed@.len() == 0 {
                None
            } else {
                parsed@.last()
            }),
        },
{
    let mut gateway: Option<IpAddr> = None;
    for i in 0..parsed.len()
        invariant
            forall|j: int| 0 <= j < i ==> (#[trigger] parsed@[j]) is Some,
            gateway == (if i == 0 {
                None
            } else {
                parsed@[i - 1]
            }),
    {
        match parsed[i] {
            Some(a) => gateway = Some(a),
            None => return Err(i),
        }
    }
    Ok(gateway)
}

} // verus!
