use vstd::prelude::*;

use vstd::utf8::encode_utf8;

verus! {

/// Why the command line could not be turned into options.
#[derive(Clone, Debug, PartialEq, Eq)]
pub enum ConfigError {
    /// No program file was named.
    MissingProgram,
    /// An argument shaped like an option that is not one.
    UnrecognizedOption(String),
}

/// What the command line asks for.
#[derive(Clone, Debug)]
pub struct Options {
    /// Trace each step, pace the run and print output bytes in readable form.
    pub debug: bool,
    /// The path of the program file.
    pub input: String,
}

/// Options gathered so far, the program file possibly still missing.
#[derive(Clone, Debug, Default)]
pub struct OptionsBuilder {
    pub debug: bool,
    pub input: Option<String>,
}

/// The length in bytes of the UTF-8 encoding of `a`, as `str::len` gives it.
pub open spec fn byte_len(a: Seq<char>) -> usize {
    encode_utf8(a).len() as usize
}

/// An argument shaped like an option: a dash and one more byte, or two
/// dashes and at least two more bytes.
pub open spec fn is_option(a: Seq<char>) -> bool {
    ||| byte_len(a) == 2 && a.len() >= 1 && a[0] == '-'
    ||| byte_len(a) > 3 && a.len() >= 2 && a[0] == '-' && a[1] == '-'
}

/// The debug option, short or long.
pub open spec fn is_debug_flag(a: Seq<char>) -> bool {
    a == seq!['-', 'd'] || a == seq!['-', '-', 'd', 'e', 'b', 'u', 'g']
}

/// The arguments read left to right: the debug option sets debug mode, any
/// other option fails at once, and the last argument that is no option names
/// the program file.
pub open spec fn scan(args: Seq<String>) -> Result<(bool, Option<Seq<char>>), Seq<char>>
    decreases args.len(),
{
    if args.len() == 0 {
        Ok((false, None))
    } else {
        match scan(args.drop_last()) {
            Err(e) => Err(e),
            Ok((d, input)) => {
                let a = args.last()@;
                if !is_option(a) {
                    Ok((d, Some(a)))
                } else if is_debug_flag(a) {
                    Ok((true, input))
                } else {
                    Err(a)
                }
            },
        }
    }
}

/// The characters of `s`, in order.
fn chars_of(s: &str) -> (r: Vec<char>)
    ensures
        r@ == s@,
{
    let mut r: Vec<char> = Vec::new();
    for c in it: s.chars()
        invariant
            it.seq() == s@,
            r@ == s@.take(it.index() as int),
    {
        r.push(c);
        assert(r@ =~= s@.take(it.index() + 1));
    }
    assert(s@.take(s@.len() as int) =~= s@);
    r
}

/// Whether `cs` holds exactly the characters of `want`.
fn same_chars(cs: &Vec<char>, want: &Vec<char>) -> (r: bool)
    ensures
        r == (cs@ == want@),
{
    if cs.len() != want.len() {
        return false;
    }
    let mut i: usize = 0;
    while i < cs.len()
        invariant
            cs.len() == want.len(),
            i <= cs.len(),
            forall|k: int| 0 <= k < i ==> cs@[k] == want@[k],
        decreases cs.len() - i,
    {
        if cs[i] != want[i] {
            return false;
        }
        i = i + 1;
    }
    assert(cs@ =~= want@);
    true
}

impl OptionsBuilder {
    /// Finishes the options: fails with `MissingProgram` when no program file was named.
    pub fn build(self) -> (r: Result<Options, ConfigError>)
        ensures
            self.input is None ==> r == Err::<Options, ConfigError>(ConfigError::MissingProgram),
            self.input matches Some(s) ==> r matches Ok(o) && o.debug == self.debug && o.input == s,
    {
        match self.input {
            Some(input) => Ok(Options { debug: self.debug, input }),
            None => Err(ConfigError::MissingProgram),
        }
    }
}

impl Options {
    /// Reads the command-line arguments (the program's own name left out).
    pub fn from_args(args: &Vec<String>) -> (r: Result<Options, ConfigError>)
        ensures
            scan(args@) matches Err(a) ==> r matches Err(ConfigError::UnrecognizedOption(s)) && s@ == a,
            scan(args@) matches Ok((d, None)) ==> r == Err::<Options, ConfigError>(ConfigError::MissingProgram),
            scan(args@) matches Ok((d, Some(p))) ==> r matches Ok(o) && o.debug == d && o.input@ == p,
    {
        let mut options = OptionsBuilder { debug: false, input: None };
        let short: Vec<char> = vec!['-', 'd'];
        let long: Vec<char> = vec!['-', '-', 'd', 'e', 'b', 'u', 'g'];
        let mut i: usize = 0;
        while i < args.len()
            invariant
                i <= args.len(),
                short@ == seq!['-', 'd'],
                long@ == seq!['-', '-', 'd', 'e', 'b', 'u', 'g'],
                scan(args@.take(i as int)) == Ok::<(bool, Option<Seq<char>>), Seq<char>>(
                    (options.debug, match options.input {
                        Some(s) => Some(s@),
                        None => None,
                    }),
                ),
            decreases args.len() - i,
        {
            assert(args@.take(i + 1).drop_last() =~= args@.take(i as int));
            let arg = &args[i];
            let n = arg.as_str().len();
            let cs = chars_of(arg.as_str());
            let option = (n == 2 && cs.len() >= 1 && cs[0] == '-') || (n > 3 && cs.len() >= 2
                && cs[0] == '-' && cs[1] == '-');
            if option {
                if same_chars(&cs, &short) || same_chars(&cs, &long) {
                    options.debug = true;
                } else {
                    proof {
                        lemma_scan_stops(args@, i as int);
                    }
                    return Err(ConfigError::UnrecognizedOption(arg.clone()));
                }
            } else {
                options.input = Some(arg.clone());
            }
            i = i + 1;
        }
        assert(args@.take(args@.len() as int) =~= args@);
        options.build()
    }
}

/// Once an argument fails, the scan of every longer prefix fails the same way.
proof fn lemma_scan_stops(args: Seq<String>, i: int)
    requires
        0 <= i < args.len(),
        scan(args.take(i + 1)) is Err,
    ensures
        scan(args) == scan(args.take(i + 1)),
    decreases args.len() - i,
{
    if i + 1 == args.len() {
        assert(args.take(i + 1) =~= args);
    } else {
        assert(args.drop_last().take(i + 1) =~= args.take(i + 1));
        lemma_scan_stops(args.drop_last(), i);
    }
}

} // verus!
