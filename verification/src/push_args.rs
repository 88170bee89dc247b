//! Command-line options of the image-pushing client.

use vstd::prelude::*;
use crate::color::trim;
use crate::numparse::{parse_unsigned, parse_unsigned_str};
use crate::push::{hex_split_panics, hex_split_would_panic, hex_value, parse_hex, bad_hex_message, hex_body};
use crate::text::chars_of;

verus! {

/// Options as plain values.
pub struct ArgsModel {
    pub image: Option<Seq<char>>,
    pub host: Seq<char>,
    pub contain: bool,
    pub nearest: bool,
    pub dither: bool,
    pub alpha_skip: bool,
    pub alpha_threshold: u8,
    pub background: Seq<u8>,
    pub concurrency: usize,
    pub connections: usize,
    pub delay_ms: u64,
    pub bruteforce: bool,
    pub interval_ms: u64,
    pub tokens: Option<usize>,
    pub supplied_tokens: Seq<Seq<char>>,
    pub rate: u64,
    pub rate_window: u64,
    pub no_cache: bool,
}

/// The options before any flag is read.
pub open spec fn default_model() -> ArgsModel {
    ArgsModel {
        image: None,
        host: "http://localhost:3000"@,
        contain: false,
        nearest: false,
        dither: false,
        alpha_skip: true,
        alpha_threshold: 128,
        background: seq![255u8, 255u8, 255u8],
        concurrency: 128,
        connections: 1,
        delay_ms: 0,
        bruteforce: false,
        interval_ms: 1000,
        tokens: None,
        supplied_tokens: Seq::empty(),
        rate: 4096,
        rate_window: 30,
        no_cache: false,
    }
}

/// Why reading the options stopped early.
pub enum StopModel {
    Help,
    Fail(Seq<char>),
    /// Slicing a `--background` colour would cut a character in two.
    Crash,
}

/// One step of reading: the options after the flag at the front (and its
/// value, when `takes_value`), or a reason to stop.
pub enum StepModel {
    Next(bool, ArgsModel),
    Stop(StopModel),
}

pub open spec fn needs_value(flag: Seq<char>) -> Seq<char> {
    flag + " needs a value"@
}

/// A flag that takes a number of at most `max`, read into the options by
/// `set`; `msg` when the value is not such a number.
pub open spec fn number_step(args: Seq<Seq<char>>, i: int, flag: Seq<char>, max: nat, msg: Seq<char>, set: spec_fn(nat) -> ArgsModel) -> StepModel {
    if i + 1 >= args.len() {
        StepModel::Stop(StopModel::Fail(needs_value(flag)))
    } else {
        match parse_unsigned(args[i + 1], max) {
            Some(v) => StepModel::Next(true, set(v)),
            None => StepModel::Stop(StopModel::Fail(msg)),
        }
    }
}

/// Read the argument at `i`.
pub open spec fn step(args: Seq<Seq<char>>, i: int, st: ArgsModel) -> StepModel {
    let a = args[i];
    let has_value = i + 1 < args.len();
    let v = args[i + 1];
    if a == "--host"@ {
        if has_value { StepModel::Next(true, ArgsModel { host: v, ..st }) } else { StepModel::Stop(StopModel::Fail(needs_value(a))) }
    } else if a == "--contain"@ {
        StepModel::Next(false, ArgsModel { contain: true, ..st })
    } else if a == "--nearest"@ {
        StepModel::Next(false, ArgsModel { nearest: true, ..st })
    } else if a == "--dither"@ {
        StepModel::Next(false, ArgsModel { dither: true, ..st })
    } else if a == "--alpha-skip"@ {
        StepModel::Next(false, ArgsModel { alpha_skip: true, ..st })
    } else if a == "--flatten"@ {
        StepModel::Next(false, ArgsModel { alpha_skip: false, ..st })
    } else if a == "--alpha-threshold"@ {
        number_step(args, i, a, u8::MAX as nat, "--alpha-threshold must be 0–255"@, |n: nat| ArgsModel { alpha_threshold: n as u8, ..st })
    } else if a == "--background"@ {
        if !has_value {
            StepModel::Stop(StopModel::Fail(needs_value(a)))
        } else if hex_split_panics(v) {
            StepModel::Stop(StopModel::Crash)
        } else {
            match hex_value(v) {
                Some(c) => StepModel::Next(true, ArgsModel { background: c, ..st }),
                None => StepModel::Stop(StopModel::Fail(bad_hex_message(hex_body(v)))),
            }
        }
    } else if a == "--token"@ {
        if !has_value {
            StepModel::Stop(StopModel::Fail(needs_value(a)))
        } else if trim(v).len() == 0 {
            StepModel::Stop(StopModel::Fail("--token must not be empty"@))
        } else {
            StepModel::Next(true, ArgsModel { supplied_tokens: st.supplied_tokens.push(trim(v)), ..st })
        }
    } else if a == "--tokens"@ {
        number_step(args, i, a, usize::MAX as nat, "--tokens must be a number"@, |n: nat| ArgsModel { tokens: Some(n as usize), ..st })
    } else if a == "--rate"@ {
        number_step(args, i, a, u64::MAX as nat, "--rate must be a number"@, |n: nat| ArgsModel { rate: n as u64, ..st })
    } else if a == "--rate-window"@ {
        number_step(args, i, a, u64::MAX as nat, "--rate-window must be a number"@, |n: nat| ArgsModel { rate_window: n as u64, ..st })
    } else if a == "--no-cache"@ {
        StepModel::Next(false, ArgsModel { no_cache: true, ..st })
    } else if a == "--bruteforce"@ || a == "--loop"@ {
        StepModel::Next(false, ArgsModel { bruteforce: true, ..st })
    } else if a == "--interval-ms"@ {
        number_step(args, i, a, u64::MAX as nat, "--interval-ms must be a number"@, |n: nat| ArgsModel { interval_ms: n as u64, ..st })
    } else if a == "--concurrency"@ {
        number_step(args, i, a, usize::MAX as nat, "--concurrency must be a number"@, |n: nat| ArgsModel { concurrency: n as usize, ..st })
    } else if a == "--connections"@ {
        number_step(args, i, a, usize::MAX as nat, "--connections must be a number"@, |n: nat| ArgsModel { connections: n as usize, ..st })
    } else if a == "--delay-ms"@ {
        number_step(args, i, a, u64::MAX as nat, "--delay-ms must be a number"@, |n: nat| ArgsModel { delay_ms: n as u64, ..st })
    } else if a == "-h"@ || a == "--help"@ {
        StepModel::Stop(StopModel::Help)
    } else if a.len() > 0 && a[0] == '-' {
        StepModel::Stop(StopModel::Fail("unknown flag: "@ + a))
    } else if st.image is Some {
        StepModel::Stop(StopModel::Fail("more than one image path given"@))
    } else {
        StepModel::Next(false, ArgsModel { image: Some(a), ..st })
    }
}

/// Read the arguments from `i` on.
pub open spec fn walk(args: Seq<Seq<char>>, i: int, st: ArgsModel) -> Result<ArgsModel, StopModel>
    decreases args.len() - i,
{
    if i < 0 || i >= args.len() {
        Ok(st)
    } else {
        match step(args, i, st) {
            StepModel::Next(two, st2) => walk(args, if two { i + 2 } else { i + 1 }, st2),
            StepModel::Stop(o) => Err(o),
        }
    }
}

/// The checks made once every argument is read.
pub open spec fn finish(st: ArgsModel) -> Result<ArgsModel, Seq<char>> {
    if st.concurrency == 0 || st.connections == 0 {
        Err("--concurrency and --connections must be >= 1"@)
    } else if st.rate == 0 || st.rate_window == 0 {
        Err("--rate and --rate-window must be >= 1"@)
    } else if st.tokens == Some(0usize) && st.supplied_tokens.len() == 0 {
        Err("no paint tokens requested; pass --token or use --tokens 1"@)
    } else if st.image is None {
        Err("missing <image> argument (try --help)"@)
    } else {
        Ok(st)
    }
}


/// Options as the client uses them.
pub struct PushArgs {
    pub image: String,
    pub host: String,
    pub contain: bool,
    pub nearest: bool,
    pub dither: bool,
    pub alpha_skip: bool,
    pub alpha_threshold: u8,
    pub background: [u8; 3],
    pub concurrency: usize,
    pub connections: usize,
    pub delay_ms: u64,
    pub bruteforce: bool,
    pub interval_ms: u64,
    pub tokens: Option<usize>,
    pub supplied_tokens: Vec<String>,
    pub rate: u64,
    pub rate_window: u64,
    pub no_cache: bool,
}

/// What reading the command line asks for.
pub enum Parsed {
    Run(PushArgs),
    Help,
}

/// Options while they are being read.
struct Flags {
    image: Option<String>,
    host: String,
    contain: bool,
    nearest: bool,
    dither: bool,
    alpha_skip: bool,
    alpha_threshold: u8,
    background: [u8; 3],
    concurrency: usize,
    connections: usize,
    delay_ms: u64,
    bruteforce: bool,
    interval_ms: u64,
    tokens: Option<usize>,
    supplied_tokens: Vec<String>,
    rate: u64,
    rate_window: u64,
    no_cache: bool,
}

pub open spec fn strings_view(v: Seq<String>) -> Seq<Seq<char>> {
    v.map_values(|s: String| s@)
}

impl Flags {
    spec fn view(&self) -> ArgsModel {
        ArgsModel {
            image: match self.image {
                Some(s) => Some(s@),
                None => None,
            },
            host: self.host@,
            contain: self.contain,
            nearest: self.nearest,
            dither: self.dither,
            alpha_skip: self.alpha_skip,
            alpha_threshold: self.alpha_threshold,
            background: seq![self.background[0], self.background[1], self.background[2]],
            concurrency: self.concurrency,
            connections: self.connections,
            delay_ms: self.delay_ms,
            bruteforce: self.bruteforce,
            interval_ms: self.interval_ms,
            tokens: self.tokens,
            supplied_tokens: strings_view(self.supplied_tokens@),
            rate: self.rate,
            rate_window: self.rate_window,
            no_cache: self.no_cache,
        }
    }
}

impl PushArgs {
    pub open spec fn view(&self) -> ArgsModel {
        ArgsModel {
            image: Some(self.image@),
            host: self.host@,
            contain: self.contain,
            nearest: self.nearest,
            dither: self.dither,
            alpha_skip: self.alpha_skip,
            alpha_threshold: self.alpha_threshold,
            background: seq![self.background[0], self.background[1], self.background[2]],
            concurrency: self.concurrency,
            connections: self.connections,
            delay_ms: self.delay_ms,
            bruteforce: self.bruteforce,
            interval_ms: self.interval_ms,
            tokens: self.tokens,
            supplied_tokens: strings_view(self.supplied_tokens@),
            rate: self.rate,
            rate_window: self.rate_window,
            no_cache: self.no_cache,
        }
    }
}

/// Text equality of a string and a literal.
fn is(a: &str, lit: &str) -> (b: bool)
    ensures
        b == (a@ == lit@),
{
    let x = chars_of(a);
    let y = chars_of(lit);
    if x.len() != y.len() {
        return false;
    }
    let mut i: usize = 0;
    while i < x.len()
        invariant
            x@ == a@,
            y@ == lit@,
            x@.len() == y@.len(),
            i <= x@.len(),
            forall|j: int| 0 <= j < i ==> x@[j] == y@[j],
        decreases x@.len() - i,
    {
        if x[i] != y[i] {
            return false;
        }
        i = i + 1;
    }
    assert(x@ =~= y@);
    true
}

fn needs(flag: &str) -> (m: String)
    ensures
        m@ == needs_value(flag@),
{
    let mut m = flag.to_owned();
    m.append(" needs a value");
    m
}

/// Why reading stopped, as values the client handles.
enum Stop {
    Help,
    Fail(String),
    Crash,
}

spec fn stop_view(s: Stop) -> StopModel {
    match s {
        Stop::Help => StopModel::Help,
        Stop::Fail(m) => StopModel::Fail(m@),
        Stop::Crash => StopModel::Crash,
    }
}

/// Read a number-valued flag at `i`.
fn number_flag(args: &Vec<String>, i: usize, flag: &str, max: u64, msg: &str) -> (r: Result<u64, Stop>)
    requires
        i < args@.len(),
    ensures
        match r {
            Ok(n) => i + 1 < args@.len() && parse_unsigned(args@[i + 1]@, max as nat) == Some(n as nat),
            Err(Stop::Fail(m)) => if i + 1 >= args@.len() {
                m@ == needs_value(flag@)
            } else {
                parse_unsigned(args@[i + 1]@, max as nat) is None && m@ == msg@
            },
            Err(_) => false,
        },
{
    let n = args.len();
    if i + 1 >= n {
        return Err(Stop::Fail(needs(flag)));
    }
    match parse_unsigned_str(args[i + 1].as_str(), max) {
        Some(n) => Ok(n),
        None => Err(Stop::Fail(msg.to_owned())),
    }
}

/// Exec form of one `step`.
#[verifier::rlimit(100)]
fn step_exec(args: &Vec<String>, i: usize, st: &mut Flags) -> (r: Result<bool, Stop>)
    requires
        i < args@.len(),
    ensures
        match step(strings_view(args@), i as int, old(st)@) {
            StepModel::Next(two, st2) => r == Ok::<bool, Stop>(two) && final(st)@ == st2,
            StepModel::Stop(o) => r matches Err(e) && stop_view(e) == o,
        },
{
    let ghost sv = strings_view(args@);
    assert(sv[i as int] == args@[i as int]@);
    assert(i + 1 < args@.len() ==> sv[i + 1] == args@[i + 1]@);
    let a = args[i].as_str();
    let n = args.len();
    let has_value = i + 1 < n;
    if is(a, "--host") {
        if has_value {
            st.host = args[i + 1].clone();
            return Ok(true);
        }
        return Err(Stop::Fail(needs(a)));
    }
    if is(a, "--contain") {
        st.contain = true;
        return Ok(false);
    }
    if is(a, "--nearest") {
        st.nearest = true;
        return Ok(false);
    }
    if is(a, "--dither") {
        st.dither = true;
        return Ok(false);
    }
    if is(a, "--alpha-skip") {
        st.alpha_skip = true;
        return Ok(false);
    }
    if is(a, "--flatten") {
        st.alpha_skip = false;
        return Ok(false);
    }
    if is(a, "--alpha-threshold") {
        let n = number_flag(args, i, a, 255, "--alpha-threshold must be 0–255")?;
        st.alpha_threshold = n as u8;
        return Ok(true);
    }
    if is(a, "--background") {
        if !has_value {
            return Err(Stop::Fail(needs(a)));
        }
        let v = args[i + 1].as_str();
        if hex_split_would_panic(v) {
            return Err(Stop::Crash);
        }
        match parse_hex(v) {
            Ok(c) => {
                st.background = c;
                return Ok(true);
            },
            Err(m) => {
                return Err(Stop::Fail(m));
            },
        }
    }
    if is(a, "--token") {
        if !has_value {
            return Err(Stop::Fail(needs(a)));
        }
        let cs = chars_of(args[i + 1].as_str());
        let (lo, hi) = crate::color::trim_bounds(&cs, 0, cs.len());
        assert(cs@.subrange(0, cs@.len() as int) =~= cs@);
        if lo == hi {
            return Err(Stop::Fail("--token must not be empty".to_owned()));
        }
        let t = crate::text::string_of(&cs, lo, hi);
        let ghost before = st.supplied_tokens@;
        st.supplied_tokens.push(t);
        assert(strings_view(st.supplied_tokens@) =~= strings_view(before).push(t@));
        return Ok(true);
    }
    if is(a, "--tokens") {
        let n = number_flag(args, i, a, usize::MAX as u64, "--tokens must be a number")?;
        st.tokens = Some(n as usize);
        return Ok(true);
    }
    if is(a, "--rate") {
        let n = number_flag(args, i, a, u64::MAX, "--rate must be a number")?;
        st.rate = n;
        return Ok(true);
    }
    if is(a, "--rate-window") {
        let n = number_flag(args, i, a, u64::MAX, "--rate-window must be a number")?;
        st.rate_window = n;
        return Ok(true);
    }
    if is(a, "--no-cache") {
        st.no_cache = true;
        return Ok(false);
    }
    if is(a, "--bruteforce") || is(a, "--loop") {
        st.bruteforce = true;
        return Ok(false);
    }
    if is(a, "--interval-ms") {
        let n = number_flag(args, i, a, u64::MAX, "--interval-ms must be a number")?;
        st.interval_ms = n;
        return Ok(true);
    }
    if is(a, "--concurrency") {
        let n = number_flag(args, i, a, usize::MAX as u64, "--concurrency must be a number")?;
        st.concurrency = n as usize;
        return Ok(true);
    }
    if is(a, "--connections") {
        let n = number_flag(args, i, a, usize::MAX as u64, "--connections must be a number")?;
        st.connections = n as usize;
        return Ok(true);
    }
    if is(a, "--delay-ms") {
        let n = number_flag(args, i, a, u64::MAX, "--delay-ms must be a number")?;
        st.delay_ms = n;
        return Ok(true);
    }
    if is(a, "-h") || is(a, "--help") {
        return Err(Stop::Help);
    }
    let cs = chars_of(a);
    if cs.len() > 0 && cs[0] == '-' {
        let mut m = "unknown flag: ".to_owned();
        m.append(a);
        return Err(Stop::Fail(m));
    }
    if st.image.is_some() {
        return Err(Stop::Fail("more than one image path given".to_owned()));
    }
    st.image = Some(a.to_owned());
    Ok(false)
}

/// Reading the arguments would slice a `--background` colour through a
/// character.
pub open spec fn args_crash(args: Seq<Seq<char>>) -> bool {
    walk(args, 0, default_model()) == Err::<ArgsModel, StopModel>(StopModel::Crash)
}

/// What the command line asks for: `Some` options to run with, `None` for
/// help, or the error text. (Not meaningful where `args_crash` holds.)
pub open spec fn parse_outcome(args: Seq<Seq<char>>) -> Result<Option<ArgsModel>, Seq<char>> {
    match walk(args, 0, default_model()) {
        Ok(st) => match finish(st) {
            Ok(m) => Ok(Some(m)),
            Err(e) => Err(e),
        },
        Err(StopModel::Help) => Ok(None),
        Err(StopModel::Fail(m)) => Err(m),
        Err(StopModel::Crash) => Ok(None),
    }
}

fn default_flags() -> (f: Flags)
    ensures
        f@ == default_model(),
{
    let f = Flags {
        image: None,
        host: "http://localhost:3000".to_owned(),
        contain: false,
        nearest: false,
        dither: false,
        alpha_skip: true,
        alpha_threshold: 128,
        background: [255, 255, 255],
        concurrency: 128,
        connections: 1,
        delay_ms: 0,
        bruteforce: false,
        interval_ms: 1000,
        tokens: None,
        supplied_tokens: Vec::new(),
        rate: 4096,
        rate_window: 30,
        no_cache: false,
    };
    assert(strings_view(f.supplied_tokens@) =~= Seq::<Seq<char>>::empty());
    assert(f@.background =~= seq![255u8, 255u8, 255u8]);
    f
}

fn walk_exec(args: &Vec<String>) -> (r: Result<Flags, Stop>)
    ensures
        match walk(strings_view(args@), 0, default_model()) {
            Ok(st) => r matches Ok(f) && f@ == st,
            Err(o) => r matches Err(e) && stop_view(e) == o,
        },
{
    let ghost sv = strings_view(args@);
    let mut st = default_flags();
    let n = args.len();
    let mut i: usize = 0;
    while i < n
        invariant
            n == args@.len(),
            sv == strings_view(args@),
            i <= n + 1,
            walk(sv, 0, default_model()) == walk(sv, i as int, st@),
        decreases n + 1 - i,
    {
        let ghost before = st@;
        let two = match step_exec(args, i, &mut st) {
            Ok(two) => two,
            Err(e) => {
                return Err(e);
            },
        };
        i = if two {
            i + 2
        } else {
            i + 1
        };
        proof {
            assert(walk(sv, (if two { i - 2 } else { i - 1 }) as int, before) == walk(sv, i as int, st@));
        }
    }
    Ok(st)
}

/// Read the client's command line (the arguments after the program name):
/// `Run` with the options, `Help` for `-h`/`--help`, or the error text.
/// Flags are read in order and the first problem stops the reading.
pub fn parse_args(args: &Vec<String>) -> (r: Result<Parsed, String>)
    requires
        !args_crash(strings_view(args@)),
    ensures
        match parse_outcome(strings_view(args@)) {
            Ok(Some(m)) => r matches Ok(Parsed::Run(a)) && a@ == m,
            Ok(None) => r matches Ok(Parsed::Help),
            Err(e) => r matches Err(t) && t@ == e,
        },
{
    let f = match walk_exec(args) {
        Ok(f) => f,
        Err(Stop::Help) => {
            return Ok(Parsed::Help);
        },
        Err(Stop::Fail(m)) => {
            return Err(m);
        },
        Err(Stop::Crash) => {
            // ruled out by the precondition
            proof {
                assert(false);
            }
            return Ok(Parsed::Help);
        },
    };
    if f.concurrency == 0 || f.connections == 0 {
        return Err("--concurrency and --connections must be >= 1".to_owned());
    }
    if f.rate == 0 || f.rate_window == 0 {
        return Err("--rate and --rate-window must be >= 1".to_owned());
    }
    if f.tokens == Some(0usize) && f.supplied_tokens.len() == 0 {
        return Err("no paint tokens requested; pass --token or use --tokens 1".to_owned());
    }
    let image = match f.image {
        Some(im) => im,
        None => {
            return Err("missing <image> argument (try --help)".to_owned());
        },
    };
    let a = PushArgs {
        image,
        host: f.host,
        contain: f.contain,
        nearest: f.nearest,
        dither: f.dither,
        alpha_skip: f.alpha_skip,
        alpha_threshold: f.alpha_threshold,
        background: f.background,
        concurrency: f.concurrency,
        connections: f.connections,
        delay_ms: f.delay_ms,
        bruteforce: f.bruteforce,
        interval_ms: f.interval_ms,
        tokens: f.tokens,
        supplied_tokens: f.supplied_tokens,
        rate: f.rate,
        rate_window: f.rate_window,
        no_cache: f.no_cache,
    };
    Ok(Parsed::Run(a))
}

/// Whether `parse_args` would cut a `--background` colour through a
/// character (where the client panics).
pub fn args_would_crash(args: &Vec<String>) -> (b: bool)
    ensures
        b == args_crash(strings_view(args@)),
{
    match walk_exec(args) {
        Err(Stop::Crash) => true,
        _ => false,
    }
}
/// When the command line is refused. Once every argument is read without a
/// stop, it is refused exactly when it names no image, a zero concurrency
/// or connection count, a zero rate or rate window, or zero tokens with none
/// supplied; a bad flag, a bad or missing value or a second image path stops
/// the reading and is refused with that text. An empty command line lacks
/// the image.
pub proof fn parse_fails_exactly_when(args: Seq<Seq<char>>)
    ensures
        walk(args, 0, default_model()) matches Ok(st) ==> (parse_outcome(args) is Err <==> (
            st.image is None || st.concurrency == 0 || st.connections == 0 || st.rate == 0
                || st.rate_window == 0 || (st.tokens == Some(0usize) && st.supplied_tokens.len() == 0)
        )),
        walk(args, 0, default_model()) matches Err(StopModel::Fail(m)) ==> parse_outcome(args) == Err::<Option<ArgsModel>, Seq<char>>(m),
        parse_outcome(Seq::empty()) == Err::<Option<ArgsModel>, Seq<char>>("missing <image> argument (try --help)"@),
{
}

proof fn lemma_walk_ignores_before(a1: Seq<Seq<char>>, a2: Seq<Seq<char>>, i: int, st: ArgsModel)
    requires
        a1.len() == a2.len(),
        forall|j: int| i <= j < a1.len() ==> a1[j] == a2[j],
    ensures
        walk(a1, i, st) == walk(a2, i, st),
    decreases a1.len() - i,
{
    if 0 <= i < a1.len() {
        assert(a1[i] == a2[i]);
        if i + 1 < a1.len() {
            assert(a1[i + 1] == a2[i + 1]);
        }
        assert(step(a1, i, st) == step(a2, i, st));
        match step(a1, i, st) {
            StepModel::Next(two, st2) => {
                lemma_walk_ignores_before(a1, a2, if two { i + 2 } else { i + 1 }, st2);
            },
            StepModel::Stop(_) => {},
        }
    }
}

/// `--bruteforce` and its alias `--loop` are the same flag: read as a flag,
/// either one turns on brute-force mode and takes no value, and reading
/// goes on with the next argument; so every command line reads the same
/// with one written for the other.
pub proof fn bruteforce_is_loop(args: Seq<Seq<char>>, i: int, st: ArgsModel)
    requires
        0 <= i < args.len(),
        args[i] == "--bruteforce"@ || args[i] == "--loop"@,
    ensures
        walk(args, i, st) == walk(args, i + 1, ArgsModel { bruteforce: true, ..st }),
        walk(args.update(i, "--bruteforce"@), i, st) == walk(args.update(i, "--loop"@), i, st),
{
    reveal_strlit("--host");
    reveal_strlit("--contain");
    reveal_strlit("--nearest");
    reveal_strlit("--dither");
    reveal_strlit("--alpha-skip");
    reveal_strlit("--flatten");
    reveal_strlit("--alpha-threshold");
    reveal_strlit("--background");
    reveal_strlit("--token");
    reveal_strlit("--tokens");
    reveal_strlit("--rate");
    reveal_strlit("--rate-window");
    reveal_strlit("--no-cache");
    reveal_strlit("--bruteforce");
    reveal_strlit("--loop");
    let b = args.update(i, "--bruteforce"@);
    let l = args.update(i, "--loop"@);
    assert("--loop"@[2] != "--host"@[2]);
    assert("--loop"@ != "--host"@);
    assert("--loop"@[2] != "--rate"@[2]);
    assert("--loop"@ != "--rate"@);
    assert(step(l, i, st) == StepModel::Next(false, ArgsModel { bruteforce: true, ..st }));
    assert("--bruteforce"@[3] != "--background"@[3]);
    assert("--bruteforce"@ != "--background"@);
    assert("--bruteforce"@[2] != "--alpha-skip"@[2]);
    assert("--bruteforce"@ != "--alpha-skip"@);
    assert(step(b, i, st) == StepModel::Next(false, ArgsModel { bruteforce: true, ..st }));
    if args[i] == "--loop"@ {
        assert(args =~= l);
    } else {
        assert(args =~= b);
    }
    assert(step(b, i, st) == StepModel::Next(false, ArgsModel { bruteforce: true, ..st }));
    assert(step(l, i, st) == StepModel::Next(false, ArgsModel { bruteforce: true, ..st }));
    lemma_walk_ignores_before(b, l, i + 1, ArgsModel { bruteforce: true, ..st });
}

} // verus!
