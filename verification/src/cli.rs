//! # Command line
//!
//! The arguments of the server program.

use crate::text;
use crate::text::{chars_of, same_text};
use vstd::prelude::*;

verus! {

/// Gateway port where none is given.
pub const DEFAULT_PORT: u16 = 9000;

/// Listen address of the peer network where none is given.
pub const DEFAULT_P2P_LISTEN: &'static str = "/ip4/0.0.0.0/tcp/0";

/// Server mode: plain WS or TLS-encrypted WSS.
#[derive(Debug, PartialEq, Eq)]
pub enum ServerMode {
    Plain,
    Tls { cert_path: String, key_path: String },
}

/// What the program is to do.
#[derive(Debug, PartialEq, Eq)]
pub struct CliArgs {
    pub ws_port: u16,
    pub p2p_listen: String,
    pub bootstrap_addrs: Vec<String>,
    pub mode: ServerMode,
}

/// Why the program does not run.
#[derive(Debug, PartialEq, Eq)]
pub enum CliStop {
    /// Help was asked for.
    Help,
    /// There is no such argument.
    Unknown(String),
    /// The value of an argument is missing, or no port: what is wrong.
    BadValue(&'static str),
    /// A certificate without a key, or a key without a certificate.
    Unpaired,
}

// ── Model ───────────────────────────────────────────────────────────

/// What the arguments up to some point say.
#[verifier::ext_equal]
pub struct Settings {
    pub port: int,
    pub listen: Seq<char>,
    pub bootstrap: Seq<Seq<char>>,
    pub cert: Option<Seq<char>>,
    pub key: Option<Seq<char>>,
}

/// A stop, as far as its text goes.
pub enum Stop {
    Help,
    Unknown(Seq<char>),
    BadValue(Seq<char>),
    Unpaired,
}

/// The value of decimal digits, the first being the most significant.
pub open spec fn digits_value(s: Seq<char>) -> int
    decreases s.len(),
{
    if s.len() == 0 {
        0
    } else {
        10 * digits_value(s.drop_last()) + (s.last() as int - '0' as int)
    }
}

/// Whether every character is a decimal digit.
pub open spec fn all_digits(s: Seq<char>) -> bool {
    forall|i: int| 0 <= i < s.len() ==> '0' <= #[trigger] s[i] <= '9'
}

/// The digits of a number: what follows a plus sign, if there is one.
pub open spec fn after_sign(s: Seq<char>) -> Seq<char> {
    if s.len() > 0 && s[0] == '+' {
        s.skip(1)
    } else {
        s
    }
}

/// The port that a text stands for: a decimal number of 16 bits, with or without a plus sign.
pub open spec fn port_of(s: Seq<char>) -> Option<int> {
    let d = after_sign(s);
    if d.len() > 0 && all_digits(d) && digits_value(d) <= 65535 {
        Some(digits_value(d))
    } else {
        None
    }
}

/// What is said where no argument is.
pub open spec fn defaults() -> Settings {
    Settings {
        port: DEFAULT_PORT as int,
        listen: DEFAULT_P2P_LISTEN@,
        bootstrap: Seq::empty(),
        cert: None,
        key: None,
    }
}

/// What is wrong where the value of an argument is missing; none where it takes no value.
pub open spec fn missing(arg: Seq<char>) -> Option<Seq<char>> {
    if arg == "--port"@ {
        Some("--port requires a value"@)
    } else if arg == "--listen-p2p"@ {
        Some("--listen-p2p requires an address"@)
    } else if arg == "--bootstrap"@ {
        Some("--bootstrap requires a multiaddr"@)
    } else if arg == "--cert"@ {
        Some("--cert requires a path"@)
    } else if arg == "--key"@ {
        Some("--key requires a path"@)
    } else {
        None
    }
}

/// What is said after one more argument and its value.
pub open spec fn with_value(s: Settings, arg: Seq<char>, value: Seq<char>) -> Result<Settings, Stop> {
    if arg == "--port"@ {
        match port_of(value) {
            Some(p) => Ok(Settings { port: p, ..s }),
            None => Err(Stop::BadValue("--port must be a number"@)),
        }
    } else if arg == "--listen-p2p"@ {
        Ok(Settings { listen: value, ..s })
    } else if arg == "--bootstrap"@ {
        Ok(Settings { bootstrap: s.bootstrap.push(value), ..s })
    } else if arg == "--cert"@ {
        Ok(Settings { cert: Some(value), ..s })
    } else {
        Ok(Settings { key: Some(value), ..s })
    }
}

/// What the arguments from `i` on say, after what was said before. The first that is wrong decides.
pub open spec fn read_from(args: Seq<Seq<char>>, i: int, s: Settings) -> Result<Settings, Stop>
    decreases args.len() - i,
{
    if i >= args.len() {
        Ok(s)
    } else if args[i] == "--help"@ || args[i] == "-h"@ {
        Err(Stop::Help)
    } else {
        match missing(args[i]) {
            None => Err(Stop::Unknown(args[i])),
            Some(wrong) => if i + 1 >= args.len() {
                Err(Stop::BadValue(wrong))
            } else {
                match with_value(s, args[i], args[i + 1]) {
                    Ok(t) => read_from(args, i + 2, t),
                    Err(e) => Err(e),
                }
            },
        }
    }
}

/// What a command line says; its first word is the program.
pub open spec fn settings_of(args: Seq<Seq<char>>) -> Result<Settings, Stop> {
    match read_from(args, 1, defaults()) {
        Ok(s) => if s.cert is Some != s.key is Some {
            Err(Stop::Unpaired)
        } else {
            Ok(s)
        },
        Err(e) => Err(e),
    }
}

/// The contents of texts.
pub open spec fn words(v: Seq<String>) -> Seq<Seq<char>> {
    v.map_values(|x: String| x@)
}

impl View for CliArgs {
    type V = Settings;

    open spec fn view(&self) -> Settings {
        Settings {
            port: self.ws_port as int,
            listen: self.p2p_listen@,
            bootstrap: words(self.bootstrap_addrs@),
            cert: match self.mode {
                ServerMode::Plain => None,
                ServerMode::Tls { cert_path, key_path } => Some(cert_path@),
            },
            key: match self.mode {
                ServerMode::Plain => None,
                ServerMode::Tls { cert_path, key_path } => Some(key_path@),
            },
        }
    }
}

impl View for CliStop {
    type V = Stop;

    open spec fn view(&self) -> Stop {
        match self {
            CliStop::Help => Stop::Help,
            CliStop::Unknown(a) => Stop::Unknown(a@),
            CliStop::BadValue(w) => Stop::BadValue(w@),
            CliStop::Unpaired => Stop::Unpaired,
        }
    }
}

// ── Laws ────────────────────────────────────────────────────────────

/// A port in decimal is read as itself.
pub proof fn port_reads_back(p: nat)
    requires
        p <= 65535,
    ensures
        port_of(text::decimal(p)) == Some(p as int),
{
    decimal_digits(p);
    assert(after_sign(text::decimal(p)) == text::decimal(p));
}

/// A digit is the port of its value, and one more digit makes ten times the port and the digit, as
/// long as that has 16 bits. A plus sign in front changes nothing.
pub proof fn port_grows_by_digits(s: Seq<char>, c: char)
    requires
        '0' <= c <= '9',
    ensures
        port_of(seq![c]) == Some(c as int - '0' as int),
        port_of(s) matches Some(p) ==> port_of(s.push(c)) == (if 10 * p + (c as int - '0' as int) <= 65535 {
            Some(10 * p + (c as int - '0' as int))
        } else {
            None
        }),
        s.len() > 0 && s[0] != '+' ==> port_of(seq!['+'] + s) == port_of(s),
{
    let one = seq![c];
    assert(one.drop_last() =~= Seq::<char>::empty());
    assert(digits_value(one.drop_last()) == 0);
    assert(after_sign(one) == one);
    if port_of(s) is Some {
        let d = after_sign(s);
        let t = s.push(c);
        assert(after_sign(t) =~= d.push(c));
        assert(d.push(c).drop_last() =~= d);
        assert forall|i: int| 0 <= i < d.push(c).len() implies '0' <= #[trigger] d.push(c)[i] <= '9' by {
            if i < d.len() {
                assert(d.push(c)[i] == d[i]);
            }
        }
    }
    if s.len() > 0 && s[0] != '+' {
        assert((seq!['+'] + s).skip(1) =~= s);
    }
}

/// A text without digits is no port, nor is one with any character that is none but a plus sign in
/// front, and a number that is too large stays so.
pub proof fn other_texts_are_no_port(s: Seq<char>, i: int, c: char)
    ensures
        port_of(Seq::empty()) is None,
        port_of(seq!['+']) is None,
        0 <= i < s.len() && !('0' <= s[i] <= '9') && !(i == 0 && s[0] == '+') ==> port_of(s) is None,
        s.len() > 0 && port_of(s) is None && (forall|j: int| 0 <= j < s.len() ==> '0' <= #[trigger] s[j] <= '9')
            ==> port_of(s.push(c)) is None,
{
    assert(after_sign(seq!['+']) =~= Seq::<char>::empty());
    if 0 <= i < s.len() && !('0' <= s[i] <= '9') && !(i == 0 && s[0] == '+') {
        let d = after_sign(s);
        let k = if s[0] == '+' {
            i - 1
        } else {
            i
        };
        assert(d[k] == s[i]);
    }
    if s.len() > 0 && port_of(s) is None && (forall|j: int| 0 <= j < s.len() ==> '0' <= #[trigger] s[j] <= '9') {
        assert('0' <= s[0] <= '9');
        let t = s.push(c);
        assert(t[0] == s[0]);
        assert(after_sign(s) == s && after_sign(t) == t);
        if all_digits(t) {
            digits_grow(t, s.len() as int);
            assert(t.take(s.len() as int) =~= s);
        }
    }
}

proof fn arguments_differ()
    ensures
        "--help"@ != "--port"@,
        "--help"@ != "--listen-p2p"@,
        "--help"@ != "--bootstrap"@,
        "--help"@ != "--cert"@,
        "--help"@ != "--key"@,
        "-h"@ != "--port"@,
        "-h"@ != "--listen-p2p"@,
        "-h"@ != "--bootstrap"@,
        "-h"@ != "--cert"@,
        "-h"@ != "--key"@,
        "--listen-p2p"@ != "--port"@,
        "--bootstrap"@ != "--port"@,
        "--bootstrap"@ != "--listen-p2p"@,
        "--cert"@ != "--port"@,
        "--cert"@ != "--listen-p2p"@,
        "--cert"@ != "--bootstrap"@,
        "--key"@ != "--port"@,
        "--key"@ != "--listen-p2p"@,
        "--key"@ != "--bootstrap"@,
        "--key"@ != "--cert"@,
{
    reveal_strlit("--help");
    reveal_strlit("-h");
    reveal_strlit("--port");
    reveal_strlit("--listen-p2p");
    reveal_strlit("--bootstrap");
    reveal_strlit("--cert");
    reveal_strlit("--key");
    assert("-h"@.len() == 2 && "--key"@.len() == 5 && "--bootstrap"@.len() == 11 && "--listen-p2p"@.len() == 12);
    assert("--help"@.len() == 6 && "--port"@.len() == 6 && "--cert"@.len() == 6);
    assert("--help"@[2] == 'h' && "--port"@[2] == 'p' && "--cert"@[2] == 'c');
}

/// What complete arguments say, the ones behind them go on from.
proof fn reading_goes_on(args: Seq<Seq<char>>, more: Seq<Seq<char>>, i: int, s: Settings, t: Settings)
    requires
        0 <= i <= args.len(),
        read_from(args, i, s) == Ok::<Settings, Stop>(t),
    ensures
        read_from(args + more, i, s) == read_from(args + more, args.len() as int, t),
    decreases args.len() - i,
{
    if i < args.len() {
        let all = args + more;
        assert(all[i] == args[i] && all[i + 1] == args[i + 1]);
        reading_goes_on(args, more, i + 2, with_value(s, args[i], args[i + 1])->Ok_0, t);
    }
}

/// Without arguments the gateway listens on port 9000 and the peer network on any port, nothing is
/// dialled, and there is no TLS.
pub proof fn nothing_said_is_the_default(program: Seq<char>)
    ensures
        settings_of(seq![program]) == Ok::<Settings, Stop>(
            Settings { port: 9000, listen: "/ip4/0.0.0.0/tcp/0"@, bootstrap: Seq::empty(), cert: None, key: None },
        ),
{
}

/// What one more argument with its value says: it sets what it names and leaves everything else as it
/// was said before.
pub proof fn argument_sets_what_it_names(args: Seq<Seq<char>>, s: Settings, value: Seq<char>)
    requires
        args.len() >= 1,
        read_from(args, 1, defaults()) == Ok::<Settings, Stop>(s),
    ensures
        port_of(value) matches Some(p) ==> read_from(args + seq!["--port"@, value], 1, defaults()) == Ok::<Settings, Stop>(
            Settings { port: p, ..s },
        ),
        port_of(value) is None ==> read_from(args + seq!["--port"@, value], 1, defaults()) == Err::<Settings, Stop>(
            Stop::BadValue("--port must be a number"@),
        ),
        read_from(args + seq!["--listen-p2p"@, value], 1, defaults()) == Ok::<Settings, Stop>(
            Settings { listen: value, ..s },
        ),
        read_from(args + seq!["--bootstrap"@, value], 1, defaults()) == Ok::<Settings, Stop>(
            Settings { bootstrap: s.bootstrap.push(value), ..s },
        ),
        read_from(args + seq!["--cert"@, value], 1, defaults()) == Ok::<Settings, Stop>(
            Settings { cert: Some(value), ..s },
        ),
        read_from(args + seq!["--key"@, value], 1, defaults()) == Ok::<Settings, Stop>(
            Settings { key: Some(value), ..s },
        ),
{
    arguments_differ();
    pair_is_read(args, s, "--port"@, value);
    pair_is_read(args, s, "--listen-p2p"@, value);
    pair_is_read(args, s, "--bootstrap"@, value);
    pair_is_read(args, s, "--cert"@, value);
    pair_is_read(args, s, "--key"@, value);
}

proof fn pair_is_read(args: Seq<Seq<char>>, s: Settings, arg: Seq<char>, value: Seq<char>)
    requires
        args.len() >= 1,
        read_from(args, 1, defaults()) == Ok::<Settings, Stop>(s),
        arg != "--help"@,
        arg != "-h"@,
        missing(arg) is Some,
    ensures
        read_from(args + seq![arg, value], 1, defaults()) == with_value(s, arg, value),
{
    let all = args + seq![arg, value];
    let n = args.len() as int;
    reading_goes_on(args, seq![arg, value], 1, defaults(), s);
    assert(all[n] == arg && all[n + 1] == value);
    if let Ok(t) = with_value(s, arg, value) {
        assert(read_from(all, n + 2, t) == Ok::<Settings, Stop>(t));
    }
}

/// What a last argument without value says: help where it asks for help, what is missing where it
/// takes a value, and that there is no such argument otherwise.
pub proof fn last_word_is_told(args: Seq<Seq<char>>, s: Settings, word: Seq<char>)
    requires
        args.len() >= 1,
        read_from(args, 1, defaults()) == Ok::<Settings, Stop>(s),
    ensures
        word == "--help"@ || word == "-h"@ ==> read_from(args.push(word), 1, defaults()) == Err::<Settings, Stop>(Stop::Help),
        word == "--port"@ ==> read_from(args.push(word), 1, defaults()) == Err::<Settings, Stop>(
            Stop::BadValue("--port requires a value"@),
        ),
        word == "--listen-p2p"@ ==> read_from(args.push(word), 1, defaults()) == Err::<Settings, Stop>(
            Stop::BadValue("--listen-p2p requires an address"@),
        ),
        word == "--bootstrap"@ ==> read_from(args.push(word), 1, defaults()) == Err::<Settings, Stop>(
            Stop::BadValue("--bootstrap requires a multiaddr"@),
        ),
        word == "--cert"@ ==> read_from(args.push(word), 1, defaults()) == Err::<Settings, Stop>(
            Stop::BadValue("--cert requires a path"@),
        ),
        word == "--key"@ ==> read_from(args.push(word), 1, defaults()) == Err::<Settings, Stop>(
            Stop::BadValue("--key requires a path"@),
        ),
        word != "--help"@ && word != "-h"@ && word != "--port"@ && word != "--listen-p2p"@ && word != "--bootstrap"@ && word
            != "--cert"@ && word != "--key"@ ==> read_from(args.push(word), 1, defaults()) == Err::<Settings, Stop>(
            Stop::Unknown(word),
        ),
{
    arguments_differ();
    reading_goes_on(args, seq![word], 1, defaults(), s);
    assert(args.push(word) =~= args + seq![word]);
    assert((args + seq![word])[args.len() as int] == word);
}

/// The first word that is wrong decides, whatever follows it.
pub proof fn first_fault_decides(args: Seq<Seq<char>>, more: Seq<Seq<char>>, e: Stop)
    requires
        args.len() >= 1,
        read_from(args, 1, defaults()) == Err::<Settings, Stop>(e),
        e is Help || e is Unknown || e == Stop::BadValue("--port must be a number"@),
    ensures
        read_from(args + more, 1, defaults()) == Err::<Settings, Stop>(e),
        settings_of(args + more) == Err::<Settings, Stop>(e),
{
    fault_stays(args, more, 1, defaults(), e);
}

proof fn fault_stays(args: Seq<Seq<char>>, more: Seq<Seq<char>>, i: int, s: Settings, e: Stop)
    requires
        0 <= i,
        read_from(args, i, s) == Err::<Settings, Stop>(e),
        e is Help || e is Unknown || e == Stop::BadValue("--port must be a number"@),
    ensures
        read_from(args + more, i, s) == Err::<Settings, Stop>(e),
    decreases args.len() - i,
{
    let all = args + more;
    assert(all[i] == args[i]);
    if args[i] != "--help"@ && args[i] != "-h"@ && missing(args[i]) is Some {
        if i + 1 >= args.len() {
            reveal_strlit("--port must be a number");
            reveal_strlit("--port requires a value");
            reveal_strlit("--listen-p2p requires an address");
            reveal_strlit("--bootstrap requires a multiaddr");
            reveal_strlit("--cert requires a path");
            reveal_strlit("--key requires a path");
            assert("--port must be a number"@.len() == 23 && "--port requires a value"@.len() == 23);
            assert("--port must be a number"@[7] != "--port requires a value"@[7]);
        } else {
            assert(all[i + 1] == args[i + 1]);
            if let Ok(t) = with_value(s, args[i], args[i + 1]) {
                fault_stays(args, more, i + 2, t, e);
            }
        }
    }
}

/// A certificate and a key go together: either alone stops the program, and nothing else does once
/// every argument is understood.
pub proof fn certificate_and_key_go_together(args: Seq<Seq<char>>)
    ensures
        read_from(args, 1, defaults()) matches Ok(s) ==> {
            &&& s.cert is Some && s.key is Some ==> settings_of(args) == Ok::<Settings, Stop>(s)
            &&& s.cert is None && s.key is None ==> settings_of(args) == Ok::<Settings, Stop>(s)
            &&& s.cert is Some && s.key is None ==> settings_of(args) == Err::<Settings, Stop>(Stop::Unpaired)
            &&& s.cert is None && s.key is Some ==> settings_of(args) == Err::<Settings, Stop>(Stop::Unpaired)
        },
        read_from(args, 1, defaults()) matches Err(e) ==> settings_of(args) == Err::<Settings, Stop>(e),
{
}

/// The settings that a program runs with are those of its plain form.
pub proof fn settings_are_faithful(a: CliArgs)
    ensures
        a@.port == a.ws_port,
        a@.listen == a.p2p_listen@,
        a@.bootstrap.len() == a.bootstrap_addrs@.len(),
        forall|i: int| 0 <= i < a.bootstrap_addrs@.len() ==> #[trigger] a@.bootstrap[i] == a.bootstrap_addrs@[i]@,
        a.mode is Plain ==> a@.cert is None && a@.key is None,
        a.mode matches ServerMode::Tls { cert_path, key_path } ==> a@.cert == Some(cert_path@) && a@.key == Some(key_path@),
{
}

/// Why a program does not run is what its plain form says.
pub proof fn stop_is_faithful(e: CliStop)
    ensures
        e is Help <==> e@ is Help,
        e matches CliStop::Unknown(arg) ==> e@ == Stop::Unknown(arg@),
        e matches CliStop::BadValue(wrong) ==> e@ == Stop::BadValue(wrong@),
        e is Unpaired <==> e@ is Unpaired,
{
}

proof fn decimal_digits(n: nat)
    ensures
        text::decimal(n).len() > 0,
        all_digits(text::decimal(n)),
        text::decimal(n)[0] != '+',
        digits_value(text::decimal(n)) == n,
    decreases n,
{
    let s = text::decimal(n);
    if n >= 10 {
        decimal_digits(n / 10);
        assert(s.drop_last() =~= text::decimal(n / 10));
        assert(s[0] == text::decimal(n / 10)[0]);
        assert forall|i: int| 0 <= i < s.len() implies '0' <= #[trigger] s[i] <= '9' by {
            if i < s.len() - 1 {
                assert(s[i] == text::decimal(n / 10)[i]);
            }
        }
    } else {
        assert(s.drop_last() =~= Seq::<char>::empty());
        assert(digits_value(s.drop_last()) == 0);
    }
}

proof fn digits_grow(s: Seq<char>, n: int)
    requires
        all_digits(s),
        0 <= n <= s.len(),
    ensures
        0 <= digits_value(s.take(n)) <= digits_value(s),
    decreases s.len(),
{
    if n == s.len() {
        assert(s.take(n) =~= s);
        if s.len() > 0 {
            digits_grow(s.drop_last(), s.len() - 1);
            assert(s.drop_last().take(s.len() - 1) =~= s.drop_last());
        }
    } else {
        let front = s.drop_last();
        digits_grow(front, n);
        assert(front.take(n) =~= s.take(n));
    }
}

// ── Code ────────────────────────────────────────────────────────────

fn parse_port(value: &str) -> (r: Option<u16>)
    ensures
        match r {
            Some(p) => port_of(value@) == Some(p as int),
            None => port_of(value@) is None,
        },
{
    let chars = chars_of(value);
    let n = chars.len();
    let start: usize = if n > 0 && chars[0] == '+' {
        1
    } else {
        0
    };
    let ghost d = after_sign(value@);
    assert(d =~= value@.skip(start as int));
    if start == n {
        return None;
    }
    let mut i: usize = start;
    let mut x: u32 = 0;
    assert(d.take(0) =~= Seq::<char>::empty());
    while i < n
        invariant
            start <= i <= n,
            n == chars@.len(),
            chars@ == value@,
            d == after_sign(value@),
            d == value@.skip(start as int),
            all_digits(d.take(i - start)),
            x == digits_value(d.take(i - start)),
            x <= 65535,
        decreases n - i,
    {
        let c = chars[i];
        assert(c == d[i - start]);
        if c < '0' || c > '9' {
            assert(!all_digits(d));
            return None;
        }
        proof {
            assert(d.take(i + 1 - start).drop_last() =~= d.take(i - start));
            assert(d.take(i + 1 - start).last() == c);
            assert forall|k: int| 0 <= k < i + 1 - start implies '0' <= #[trigger] d.take(i + 1 - start)[k] <= '9' by {
                if k < i - start {
                    assert(d.take(i + 1 - start)[k] == d.take(i - start)[k]);
                }
            }
        }
        x = 10 * x + (c as u32 - '0' as u32);
        i = i + 1;
        if x > 65535 {
            proof {
                if all_digits(d) {
                    digits_grow(d, i - start);
                }
            }
            return None;
        }
    }
    assert(d.take(n - start) =~= d);
    Some(x as u16)
}

impl CliArgs {
    /// What a command line says, its first word being the program, or why the program does not run.
    pub fn parse(raw: &Vec<String>) -> (r: Result<CliArgs, CliStop>)
        ensures
            match r {
                Ok(a) => settings_of(words(raw@)) == Ok::<Settings, Stop>(a@),
                Err(e) => settings_of(words(raw@)) == Err::<Settings, Stop>(e@),
            },
    {
        let ghost args = words(raw@);
        let mut ws_port: u16 = DEFAULT_PORT;
        let mut p2p_listen = DEFAULT_P2P_LISTEN.to_owned();
        let mut bootstrap: Vec<String> = Vec::new();
        let mut cert: Option<String> = None;
        let mut key: Option<String> = None;
        let ghost mut said = defaults();
        assert(words(bootstrap@) =~= Seq::<Seq<char>>::empty());
        let mut i: usize = 1;
        while i < raw.len()
            invariant
                i >= 1,
                args == words(raw@),
                read_from(args, i as int, said) == read_from(args, 1, defaults()),
                said.port == ws_port,
                said.listen == p2p_listen@,
                said.bootstrap == words(bootstrap@),
                said.cert == text::contents_of(cert),
                said.key == text::contents_of(key),
            decreases raw@.len() - i,
        {
            let arg = raw[i].as_str();
            assert(arg@ == args[i as int]);
            if same_text(arg, "--help") || same_text(arg, "-h") {
                return Err(CliStop::Help);
            }
            let wrong = if same_text(arg, "--port") {
                "--port requires a value"
            } else if same_text(arg, "--listen-p2p") {
                "--listen-p2p requires an address"
            } else if same_text(arg, "--bootstrap") {
                "--bootstrap requires a multiaddr"
            } else if same_text(arg, "--cert") {
                "--cert requires a path"
            } else if same_text(arg, "--key") {
                "--key requires a path"
            } else {
                return Err(CliStop::Unknown(arg.to_owned()));
            };
            i = i + 1;
            if i >= raw.len() {
                return Err(CliStop::BadValue(wrong));
            }
            let value = raw[i].as_str();
            assert(value@ == args[i as int]);
            let ghost before = said;
            proof {
                said = match with_value(before, arg@, value@) {
                    Ok(t) => t,
                    Err(_) => before,
                };
            }
            if same_text(arg, "--port") {
                ws_port = match parse_port(value) {
                    Some(p) => p,
                    None => {
                        return Err(CliStop::BadValue("--port must be a number"));
                    },
                };
            } else if same_text(arg, "--listen-p2p") {
                p2p_listen = value.to_owned();
            } else if same_text(arg, "--bootstrap") {
                let ghost old_addrs = bootstrap@;
                bootstrap.push(value.to_owned());
                assert(words(bootstrap@) =~= words(old_addrs).push(value@));
            } else if same_text(arg, "--cert") {
                cert = Some(value.to_owned());
            } else {
                key = Some(value.to_owned());
            }
            i = i + 1;
        }
        match (cert, key) {
            (Some(cert_path), Some(key_path)) => Ok(
                CliArgs {
                    ws_port,
                    p2p_listen,
                    bootstrap_addrs: bootstrap,
                    mode: ServerMode::Tls { cert_path, key_path },
                },
            ),
            (None, None) => Ok(
                CliArgs { ws_port, p2p_listen, bootstrap_addrs: bootstrap, mode: ServerMode::Plain },
            ),
            _ => Err(CliStop::Unpaired),
        }
    }
}

} // verus!
