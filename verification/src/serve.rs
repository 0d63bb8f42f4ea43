//! The receiving side's start: what is asked for on the command line, and the allow list without
//! which the service does not start.

use vstd::prelude::*;
use vstd::string::*;
use crate::allowlist;
use crate::allowlist::{AllowError, AllowList};
use crate::args;
use crate::noise::KEY_LEN;
use crate::text;

verus! {

/// Where the service listens unless told otherwise: every address, the default port.
pub const DEFAULT_LISTEN: &'static str = "0.0.0.0:9022";

/// What the command line of the service asks for.
#[derive(Debug, Clone, PartialEq, Eq)]
pub struct ServeRequest {
    pub listen: String,
    pub key_path: String,
    /// The path of the allow file.
    pub allow_path: Option<String>,
    /// Keys given by themselves.
    pub allow_keys: Vec<String>,
    /// Print what is received.
    pub dump: bool,
    /// Leave the local clipboard alone.
    pub no_wl_copy: bool,
}

/// Whether a request is what some arguments ask for.
pub open spec fn is_request(a: Seq<Seq<char>>, r: ServeRequest) -> bool {
    &&& r.listen@ == match args::option_value(a, "--listen"@) {
        Some(listen) => listen,
        None => DEFAULT_LISTEN@,
    }
    &&& args::option_value(a, "--key"@) == Some(r.key_path@)
    &&& args::opt_view(r.allow_path) == args::option_value(a, "--allow"@)
    &&& args::views(r.allow_keys@) == args::option_values(a, "--allow-key"@)
    &&& r.dump == a.contains("--dump"@)
    &&& r.no_wl_copy == a.contains("--no-wl-copy"@)
}

/// Reads the arguments of the service. `None` if there is no `--key`.
pub fn serve_request(args: &[String]) -> (r: Option<ServeRequest>)
    ensures
        match r {
            Some(request) => is_request(args::views(args@), request),
            None => args::option_value(args::views(args@), "--key"@) is None,
        },
{
    let listen = match args::opt(args, "--listen") {
        Some(s) => s,
        None => DEFAULT_LISTEN.to_owned(),
    };
    let key_path = match args::opt(args, "--key") {
        Some(s) => s,
        None => {
            return None;
        },
    };
    Some(
        ServeRequest {
            listen,
            key_path,
            allow_path: args::opt(args, "--allow"),
            allow_keys: args::opt_all(args, "--allow-key"),
            dump: args::flag(args, "--dump"),
            no_wl_copy: args::flag(args, "--no-wl-copy"),
        },
    )
}

/// Whether the content of a key file is a private key.
pub fn is_private_key(content: &[u8]) -> (r: bool)
    ensures
        r == (content@.len() == KEY_LEN),
{
    content.len() == KEY_LEN
}

/// The lines of the allow file, none if there is no file.
pub open spec fn lines_of(file: Option<Seq<char>>) -> Seq<Seq<char>> {
    match file {
        Some(content) => text::lines(content),
        None => Seq::empty(),
    }
}

/// A text as contracts speak of it, if there is one.
pub open spec fn file_view(file: Option<&str>) -> Option<Seq<char>> {
    match file {
        Some(content) => Some(content@),
        None => None,
    }
}

/// Whether `r` is what comes of some lines and keys: the set of all keys, or the first line or key
/// that is none, or that there is no key at all.
pub open spec fn is_outcome(
    lines: Seq<Seq<char>>,
    given: Seq<Seq<char>>,
    r: Result<Set<Seq<char>>, AllowError>,
) -> bool {
    let all = allowlist::keys_on(lines).union(allowlist::keys_of(given));
    match r {
        Ok(list) => allowlist::lines_ok(lines, lines.len() as int) && allowlist::keys_ok(
            given,
            given.len() as int,
        ) && list == all && all != Set::<Seq<char>>::empty(),
        Err(AllowError::BadLine(n)) => 1 <= n <= lines.len() && allowlist::lines_ok(lines, n - 1)
            && !allowlist::line_ok(lines[n - 1]),
        Err(AllowError::BadKey(n)) => allowlist::lines_ok(lines, lines.len() as int) && n
            < given.len() && allowlist::keys_ok(given, n as int) && !allowlist::is_key(
            given[n as int],
        ),
        Err(AllowError::Empty) => allowlist::lines_ok(lines, lines.len() as int)
            && allowlist::keys_ok(given, given.len() as int) && all == Set::<Seq<char>>::empty(),
    }
}

/// The allow list of the service: the keys of the file and those given by themselves. The first
/// line or key that is none is an error, and so is a list without any key: the service then does
/// not start.
pub fn allow_list(file: Option<&str>, keys: &[String]) -> (r: Result<AllowList, AllowError>)
    ensures
        is_outcome(
            lines_of(file_view(file)),
            args::views(keys@),
            match r {
                Ok(list) => Ok(list@),
                Err(e) => Err(e),
            },
        ),
{
    let mut list = AllowList::new();
    match file {
        Some(content) => match list.add_file(content) {
            Ok(_) => {},
            Err(e) => {
                return Err(e);
            },
        },
        None => {},
    }
    assert(list@ =~= allowlist::keys_on(lines_of(file_view(file))));
    match list.add_keys(keys) {
        Ok(_) => {},
        Err(e) => {
            return Err(e);
        },
    }
    if list.is_empty() {
        return Err(AllowError::Empty);
    }
    Ok(list)
}

/// A service that is given no key at all does not start.
pub proof fn law_no_key_no_list(lines: Seq<Seq<char>>)
    requires
        forall|i: int| 0 <= i < lines.len() ==> allowlist::entry(#[trigger] lines[i]).len() == 0,
    ensures
        allowlist::keys_on(lines).union(allowlist::keys_of(Seq::empty())) == Set::<Seq<char>>::empty(),
{
    let all = allowlist::keys_on(lines).union(allowlist::keys_of(Seq::empty()));
    assert forall|key: Seq<char>| !all.contains(key) by {
        allowlist::law_list_holds_the_lines(lines, key);
    }
    assert(all =~= Set::<Seq<char>>::empty());
}

/// A service starts with a list exactly if every entry is 64 hexadecimal digits and there is an
/// entry; the list then holds the entries in lower case and nothing else.
pub proof fn law_list_is_the_entries(
    lines: Seq<Seq<char>>,
    given: Seq<Seq<char>>,
    r: Result<Set<Seq<char>>, AllowError>,
    key: Seq<char>,
)
    requires
        is_outcome(lines, given, r),
    ensures
        r is Ok ==> (exists|i: int|
            0 <= i < lines.len() && allowlist::entry(#[trigger] lines[i]).len() > 0)
            || given.len() > 0,
        r is Ok <==> {
            &&& forall|i: int|
                0 <= i < lines.len() ==> allowlist::entry(#[trigger] lines[i]).len() == 0
                    || allowlist::is_key(allowlist::entry(lines[i]))
            &&& forall|i: int| 0 <= i < given.len() ==> allowlist::is_key(#[trigger] given[i])
            &&& given.len() > 0 || exists|i: int|
                0 <= i < lines.len() && allowlist::entry(#[trigger] lines[i]).len() > 0
        },
        r matches Ok(list) ==> (list.contains(key) <==> {
            ||| exists|i: int|
                0 <= i < lines.len() && allowlist::entry(#[trigger] lines[i]).len() > 0
                    && text::lowered(allowlist::entry(lines[i])) == key
            ||| exists|i: int| 0 <= i < given.len() && text::lowered(#[trigger] given[i]) == key
        }),
{
    let all = allowlist::keys_on(lines).union(allowlist::keys_of(given));
    allowlist::law_list_holds_the_lines(lines, key);
    allowlist::law_list_holds_the_keys(given, key);
    if given.len() > 0 {
        let k = text::lowered(given[0]);
        allowlist::law_list_holds_the_keys(given, k);
        assert(all.contains(k));
    }
    if exists|i: int| 0 <= i < lines.len() && allowlist::entry(#[trigger] lines[i]).len() > 0 {
        let i = choose|i: int|
            0 <= i < lines.len() && allowlist::entry(#[trigger] lines[i]).len() > 0;
        let k = text::lowered(allowlist::entry(lines[i]));
        allowlist::law_list_holds_the_lines(lines, k);
        assert(all.contains(k));
    } else if given.len() == 0 {
        assert(given =~= Seq::<Seq<char>>::empty());
        law_no_key_no_list(lines);
    }
}

/// What comes of some lines and keys is one thing: an error names the first line or key that is at
/// fault, lines before keys.
pub proof fn law_outcome_is_one(
    lines: Seq<Seq<char>>,
    given: Seq<Seq<char>>,
    r: Result<Set<Seq<char>>, AllowError>,
    q: Result<Set<Seq<char>>, AllowError>,
)
    requires
        is_outcome(lines, given, r),
        is_outcome(lines, given, q),
    ensures
        r == q,
{
    if let (Err(AllowError::BadLine(n)), Err(AllowError::BadLine(m))) = (r, q) {
        assert(!allowlist::line_ok(lines[n - 1]) && !allowlist::line_ok(lines[m - 1]));
    }
    if let Err(AllowError::BadLine(n)) = r {
        assert(!allowlist::line_ok(lines[n - 1]));
    }
    if let Err(AllowError::BadLine(n)) = q {
        assert(!allowlist::line_ok(lines[n - 1]));
    }
    if let Err(AllowError::BadKey(n)) = r {
        assert(!allowlist::is_key(given[n as int]));
    }
    if let Err(AllowError::BadKey(n)) = q {
        assert(!allowlist::is_key(given[n as int]));
    }
}

/// An error names a line, counted from 1, or a key, counted from 0, that is at fault, and
/// everything before it is in order.
pub proof fn law_error_names_the_first_fault(
    lines: Seq<Seq<char>>,
    given: Seq<Seq<char>>,
    n: usize,
    i: int,
)
    ensures
        is_outcome(lines, given, Err(AllowError::BadLine(n))) ==> 1 <= n <= lines.len()
            && !allowlist::line_ok(lines[n - 1]) && (0 <= i < n - 1 ==> allowlist::line_ok(lines[i])),
        is_outcome(lines, given, Err(AllowError::BadKey(n))) ==> n < given.len()
            && !allowlist::is_key(given[n as int]) && (0 <= i < n ==> allowlist::is_key(given[i]))
            && (0 <= i < lines.len() ==> allowlist::line_ok(lines[i])),
{
}

/// Without `--listen` the service listens on every address, port 9022; with it, where it says.
pub proof fn law_request_follows_the_arguments(a: Seq<Seq<char>>, r: ServeRequest)
    requires
        is_request(a, r),
    ensures
        args::option_value(a, "--listen"@) is None ==> r.listen@ == "0.0.0.0:9022"@,
        args::option_value(a, "--listen"@) matches Some(listen) ==> r.listen@ == listen,
        args::option_value(a, "--key"@) == Some(r.key_path@),
        r.allow_path matches Some(path) ==> args::option_value(a, "--allow"@) == Some(path@),
        r.allow_path is None ==> args::option_value(a, "--allow"@) is None,
        r.allow_keys@.len() == args::option_values(a, "--allow-key"@).len(),
        forall|i: int|
            0 <= i < r.allow_keys@.len() ==> #[trigger] r.allow_keys@[i]@ == args::option_values(
                a,
                "--allow-key"@,
            )[i],
        r.dump <==> a.contains("--dump"@),
        r.no_wl_copy <==> a.contains("--no-wl-copy"@),
{
    let views = args::views(r.allow_keys@);
    assert forall|i: int| 0 <= i < r.allow_keys@.len() implies #[trigger] r.allow_keys@[i]@
        == args::option_values(a, "--allow-key"@)[i] by {
        assert(views[i] == r.allow_keys@[i]@);
    }
}

} // verus!
