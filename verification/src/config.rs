//! The listing configuration: display flags and the user's sort chain,
//! folded out of the command-line arguments handed in by the caller.

use vstd::prelude::*;

use crate::order::SortOption;

verus! {

/// Configuration of one listing run. `sort_by` is the user's sort chain;
/// it defaults to directories-grouped-then-name.
pub struct Config {
    pub show_header: bool,
    pub show_size: bool,
    pub show_creation: bool,
    pub show_modification: bool,
    pub print_all: bool,
    pub sort_by: Vec<SortOption>,
}

/// A chain token: one character naming a sort criterion.
pub open spec fn sort_token(c: char) -> bool {
    c == 'd' || c == 'n' || c == 's' || c == 'c' || c == 'm' || c == '!'
}

/// The criterion a chain token names (meaningful only for tokens).
pub open spec fn token_option(c: char) -> SortOption {
    if c == 'd' {
        SortOption::IsDirectory
    } else if c == 'n' {
        SortOption::Name
    } else if c == 's' {
        SortOption::Size
    } else if c == 'c' {
        SortOption::Creation
    } else if c == 'm' {
        SortOption::Modification
    } else {
        SortOption::Reverse
    }
}

/// `"sort="` followed by one chain token occurs somewhere in `s`: what the
/// sort-directive pattern recognizes.
pub open spec fn contains_sort_directive(s: Seq<char>) -> bool {
    exists|i: int|
        0 <= i && i + 6 <= s.len() && #[trigger] s.subrange(i, i + 5) =~= seq![
            's',
            'o',
            'r',
            't',
            '=',
        ] && sort_token(s[i + 5])
}

/// `s` is a well-formed sort directive: exactly `"sort="` followed by one
/// or more chain tokens.
pub open spec fn spec_sort_directive(s: Seq<char>) -> bool {
    s.len() >= 6 && s.subrange(0, 5) =~= seq!['s', 'o', 'r', 't', '='] && (forall|i: int|
        5 <= i < s.len() ==> sort_token(s[i]))
}

/// The chain a well-formed sort directive names, token by token in written
/// order.
pub open spec fn spec_chain_of(s: Seq<char>) -> Seq<SortOption> {
    s.skip(5).map_values(|c: char| token_option(c))
}

/// A well-formed directive is in particular recognized by the pattern.
pub proof fn lemma_directive_matches(s: Seq<char>)
    requires
        spec_sort_directive(s),
    ensures
        contains_sort_directive(s),
{
    let w: int = 0;
    assert(s.subrange(w, w + 5) =~= seq!['s', 'o', 'r', 't', '=']);
    assert(0 <= w && w + 6 <= s.len() && s.subrange(w, w + 5) =~= seq!['s', 'o', 'r', 't', '=']
        && sort_token(s[w + 5]));
}

/// Relies on `regex::Regex::new` and `regex::Regex::is_match`: `new` on
/// the fixed, valid pattern `sort=(d|n|s|c|m|!)` cannot fail, and
/// `is_match` returns true if and only if the pattern matches anywhere in
/// the haystack — here, if and only if `"sort="` followed by one chain
/// token occurs in `s`.
#[verifier::external_body]
fn matches_sort_pattern(s: &str) -> (r: bool)
    ensures
        r == contains_sort_directive(s@),
{
    regex::Regex::new("sort=(d|n|s|c|m|!)").unwrap().is_match(s)
}

/// Parse a well-formed sort directive, rejecting anything else: the
/// argument must be exactly `"sort="` followed by at least one token, and
/// every token must be recognized.
pub fn parse_sort_directive(arg: &str) -> (r: Option<Vec<SortOption>>)
    ensures
        (r is Some) == spec_sort_directive(arg@),
        r is Some ==> r->0@ == spec_chain_of(arg@),
{
    let n = arg.unicode_len();
    if n < 6 {
        return None;
    }
    if !(arg.get_char(0) == 's' && arg.get_char(1) == 'o' && arg.get_char(2) == 'r'
        && arg.get_char(3) == 't' && arg.get_char(4) == '=') {
        proof {
            assert(!spec_sort_directive(arg@)) by {
                if spec_sort_directive(arg@) {
                    assert(arg@.subrange(0, 5)[0] == arg@[0]);
                    assert(arg@.subrange(0, 5)[1] == arg@[1]);
                    assert(arg@.subrange(0, 5)[2] == arg@[2]);
                    assert(arg@.subrange(0, 5)[3] == arg@[3]);
                    assert(arg@.subrange(0, 5)[4] == arg@[4]);
                }
            }
        }
        return None;
    }
    proof {
        assert(arg@.subrange(0, 5) =~= seq!['s', 'o', 'r', 't', '=']);
    }
    let mut chain: Vec<SortOption> = Vec::new();
    let mut i: usize = 5;
    while i < n
        invariant
            5 <= i <= n,
            n == arg@.len(),
            forall|j: int| 5 <= j < i ==> sort_token(arg@[j]),
            chain@ == arg@.subrange(5, i as int).map_values(|c: char| token_option(c)),
        decreases n - i,
    {
        let c = arg.get_char(i);
        let opt = if c == 'd' {
            SortOption::IsDirectory
        } else if c == 'n' {
            SortOption::Name
        } else if c == 's' {
            SortOption::Size
        } else if c == 'c' {
            SortOption::Creation
        } else if c == 'm' {
            SortOption::Modification
        } else if c == '!' {
            SortOption::Reverse
        } else {
            return None;
        };
        chain.push(opt);
        i = i + 1;
        proof {
            assert(chain@ =~= arg@.subrange(5, i as int).map_values(
                |ch: char| token_option(ch),
            ));
        }
    }
    proof {
        assert(arg@.subrange(5, n as int) =~= arg@.skip(5));
    }
    Some(chain)
}

/// `s` is one of the five recognized flag arguments.
pub open spec fn is_flag(s: Seq<char>) -> bool {
    s == seq!['-', 'h'] || s == seq!['-', 's'] || s == seq!['-', 'c'] || s == seq!['-', 'm'] || s
        == seq!['-', 'a']
}

/// An argument the fold accepts: a flag or a well-formed sort directive.
pub open spec fn recognized_arg(s: Seq<char>) -> bool {
    is_flag(s) || spec_sort_directive(s)
}

/// Some argument is the flag `-f`.
pub open spec fn spec_flag_set(args: Seq<String>, f: char) -> bool {
    exists|i: int| 0 <= i < args.len() && (#[trigger] args[i])@ == seq!['-', f]
}

/// The chain of the last well-formed sort directive among the arguments,
/// or the default chain when there is none.
pub open spec fn spec_sort_chain(args: Seq<String>) -> Seq<SortOption>
    decreases args.len(),
{
    if args.len() == 0 {
        seq![SortOption::IsDirectory, SortOption::Name]
    } else if spec_sort_directive(args.last()@) {
        spec_chain_of(args.last()@)
    } else {
        spec_sort_chain(args.drop_last())
    }
}

proof fn lemma_flag_set_extend(args: Seq<String>, n: int, f: char)
    requires
        0 <= n < args.len(),
    ensures
        spec_flag_set(args.take(n + 1), f) == (spec_flag_set(args.take(n), f) || args[n]@
            == seq!['-', f]),
{
    let ext = args.take(n + 1);
    let pre = args.take(n);
    assert(forall|i: int| 0 <= i < n + 1 ==> ext[i] == args[i]);
    assert(forall|i: int| 0 <= i < n ==> pre[i] == args[i]);
    if spec_flag_set(ext, f) {
        let i = choose|i: int| 0 <= i < ext.len() && (#[trigger] ext[i])@ == seq!['-', f];
        if i < n {
            assert(pre[i]@ == seq!['-', f]);
        }
    }
    if spec_flag_set(pre, f) {
        let i = choose|i: int| 0 <= i < pre.len() && (#[trigger] pre[i])@ == seq!['-', f];
        assert(ext[i]@ == seq!['-', f]);
    }
    if args[n]@ == seq!['-', f] {
        assert(ext[n]@ == seq!['-', f]);
    }
}

/// Whether `s` is exactly the two characters `-` and `f`.
fn is_flag_arg(s: &str, f: char) -> (r: bool)
    ensures
        r == (s@ == seq!['-', f]),
{
    let n = s.unicode_len();
    if n != 2 {
        return false;
    }
    let r = s.get_char(0) == '-' && s.get_char(1) == f;
    proof {
        if r {
            assert(s@ =~= seq!['-', f]);
        } else {
            if s@ == seq!['-', f] {
                assert(s@[0] == '-' && s@[1] == f);
            }
        }
    }
    r
}

impl Config {
    /// The configuration before any argument is applied: every display
    /// flag off, hidden entries excluded, and the default chain grouping
    /// directories and then sorting by name.
    pub fn new() -> (c: Config)
        ensures
            !c.show_header,
            !c.show_size,
            !c.show_creation,
            !c.show_modification,
            !c.print_all,
            c.sort_by@ == seq![SortOption::IsDirectory, SortOption::Name],
    {
        let mut sort_by: Vec<SortOption> = Vec::new();
        sort_by.push(SortOption::IsDirectory);
        sort_by.push(SortOption::Name);
        proof {
            assert(sort_by@ =~= seq![SortOption::IsDirectory, SortOption::Name]);
        }
        Config {
            show_header: false,
            show_size: false,
            show_creation: false,
            show_modification: false,
            print_all: false,
            sort_by,
        }
    }

    /// Replace the sort chain.
    pub fn set_sort_by(self, options: Vec<SortOption>) -> (r: Config)
        ensures
            r.sort_by == options,
            r.show_header == self.show_header,
            r.show_size == self.show_size,
            r.show_creation == self.show_creation,
            r.show_modification == self.show_modification,
            r.print_all == self.print_all,
    {
        Config { sort_by: options, ..self }
    }

    /// Turn the header row on.
    pub fn set_show_header(self) -> (r: Config)
        ensures
            r.show_header,
            r.show_size == self.show_size,
            r.show_creation == self.show_creation,
            r.show_modification == self.show_modification,
            r.print_all == self.print_all,
            r.sort_by == self.sort_by,
    {
        Config { show_header: true, ..self }
    }

    /// Turn the size column on.
    pub fn set_show_size(self) -> (r: Config)
        ensures
            r.show_size,
            r.show_header == self.show_header,
            r.show_creation == self.show_creation,
            r.show_modification == self.show_modification,
            r.print_all == self.print_all,
            r.sort_by == self.sort_by,
    {
        Config { show_size: true, ..self }
    }

    /// Turn the creation-time column on.
    pub fn set_show_creation(self) -> (r: Config)
        ensures
            r.show_creation,
            r.show_header == self.show_header,
            r.show_size == self.show_size,
            r.show_modification == self.show_modification,
            r.print_all == self.print_all,
            r.sort_by == self.sort_by,
    {
        Config { show_creation: true, ..self }
    }

    /// Turn the modification-time column on.
    pub fn set_show_modification(self) -> (r: Config)
        ensures
            r.show_modification,
            r.show_header == self.show_header,
            r.show_size == self.show_size,
            r.show_creation == self.show_creation,
            r.print_all == self.print_all,
            r.sort_by == self.sort_by,
    {
        Config { show_modification: true, ..self }
    }

    /// Include hidden entries.
    pub fn set_show_print_all(self) -> (r: Config)
        ensures
            r.print_all,
            r.show_header == self.show_header,
            r.show_size == self.show_size,
            r.show_creation == self.show_creation,
            r.show_modification == self.show_modification,
            r.sort_by == self.sort_by,
    {
        Config { print_all: true, ..self }
    }

    /// Fold the command-line arguments (the program name already skipped)
    /// into a configuration: each flag switches its option on, each
    /// well-formed sort directive replaces the chain (the last one wins),
    /// and the first argument that is neither is returned as the error.
    pub fn from_args(args: &Vec<String>) -> (r: Result<Config, String>)
        ensures
            (r is Ok) <==> (forall|i: int| 0 <= i < args@.len() ==> recognized_arg(args@[i]@)),
            r is Ok ==> r->Ok_0.show_header == spec_flag_set(args@, 'h'),
            r is Ok ==> r->Ok_0.show_size == spec_flag_set(args@, 's'),
            r is Ok ==> r->Ok_0.show_creation == spec_flag_set(args@, 'c'),
            r is Ok ==> r->Ok_0.show_modification == spec_flag_set(args@, 'm'),
            r is Ok ==> r->Ok_0.print_all == spec_flag_set(args@, 'a'),
            r is Ok ==> r->Ok_0.sort_by@ == spec_sort_chain(args@),
            r is Err ==> exists|i: int|
                0 <= i < args@.len() && !recognized_arg((#[trigger] args@[i])@) && r->Err_0@
                    == args@[i]@ && (forall|j: int| 0 <= j < i ==> recognized_arg(args@[j]@)),
    {
        let mut config = Config::new();
        let mut idx: usize = 0;
        while idx < args.len()
            invariant
                idx <= args@.len(),
                forall|i: int| 0 <= i < idx ==> recognized_arg((#[trigger] args@[i])@),
                config.show_header == spec_flag_set(args@.take(idx as int), 'h'),
                config.show_size == spec_flag_set(args@.take(idx as int), 's'),
                config.show_creation == spec_flag_set(args@.take(idx as int), 'c'),
                config.show_modification == spec_flag_set(args@.take(idx as int), 'm'),
                config.print_all == spec_flag_set(args@.take(idx as int), 'a'),
                config.sort_by@ == spec_sort_chain(args@.take(idx as int)),
            decreases args@.len() - idx,
        {
            let arg = &args[idx];
            proof {
                lemma_flag_set_extend(args@, idx as int, 'h');
                lemma_flag_set_extend(args@, idx as int, 's');
                lemma_flag_set_extend(args@, idx as int, 'c');
                lemma_flag_set_extend(args@, idx as int, 'm');
                lemma_flag_set_extend(args@, idx as int, 'a');
                assert(args@.take(idx + 1).drop_last() =~= args@.take(idx as int));
                assert(args@.take(idx + 1).last() == args@[idx as int]);
            }
            config = if is_flag_arg(arg.as_str(), 'h') {
                config.set_show_header()
            } else if is_flag_arg(arg.as_str(), 's') {
                config.set_show_size()
            } else if is_flag_arg(arg.as_str(), 'c') {
                config.set_show_creation()
            } else if is_flag_arg(arg.as_str(), 'm') {
                config.set_show_modification()
            } else if is_flag_arg(arg.as_str(), 'a') {
                config.set_show_print_all()
            } else if matches_sort_pattern(arg.as_str()) {
                match parse_sort_directive(arg.as_str()) {
                    Some(chain) => config.set_sort_by(chain),
                    None => {
                        return Err(arg.clone());
                    },
                }
            } else {
                proof {
                    if spec_sort_directive(arg@) {
                        lemma_directive_matches(arg@);
                    }
                }
                return Err(arg.clone());
            };
            idx = idx + 1;
        }
        proof {
            assert(args@.take(args@.len() as int) =~= args@);
        }
        Ok(config)
    }
}

} // verus!
