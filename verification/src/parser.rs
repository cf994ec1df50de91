//! The parser itself: an option map from single flag characters to string
//! values, a duplicate-free list of file-extension patterns, and a help
//! string. The option map is held as an association list with unique keys
//! and is specified through the map it denotes.

use vstd::prelude::*;
use crate::model::{
    abs_path_of, add_pat, add_pats, distinct, entry_keys_unique, is_opt_token,
    lemma_add_pats_snoc, lemma_map_of_contains, lemma_map_of_index, lemma_map_of_push,
    lemma_map_of_update, map_of, opt_value, parse_opts, replace_sep_chars, split_commas, views_of,
};

verus! {

/// Relies on `String::push` from std: appends the given character to the
/// end of the string.
pub assume_specification[ String::push ](s: &mut String, ch: char)
    ensures
        final(s)@ == old(s)@.push(ch),
;

/// The built-in usage message a freshly constructed parser carries.
pub open spec fn default_help() -> Seq<char> {
    "\n  Help:\n  Options: /P . /p \"rs,txt\""@ + " /s /r \"abc\" /H /h"@
}

/// A command-line parser: accumulates flag options and file-extension
/// patterns, and answers queries about them.
#[derive(Debug)]
pub struct CmdLineParse {
    opt_map: Vec<(char, String)>,
    patterns: Vec<String>,
    help_str: String,
}

impl CmdLineParse {
    /// The option map this parser holds.
    pub closed spec fn opt_map_spec(self) -> Map<char, Seq<char>> {
        map_of(self.opt_map@)
    }

    /// The pattern list this parser holds, in order.
    pub closed spec fn patterns_spec(self) -> Seq<Seq<char>> {
        views_of(self.patterns@)
    }

    /// The help text this parser holds.
    pub closed spec fn help_spec(self) -> Seq<char> {
        self.help_str@
    }

    /// Well-formedness: option keys are unique and the pattern list holds
    /// no duplicates.
    pub closed spec fn wf(self) -> bool {
        entry_keys_unique(self.opt_map@) && distinct(views_of(self.patterns@))
    }

    /// A well-formed parser's pattern list holds no duplicate entries;
    /// every operation of the parser keeps it well-formed.
    pub proof fn lemma_patterns_distinct(self)
        requires
            self.wf(),
        ensures
            distinct(self.patterns_spec()),
    {
    }

    /// A parser with no options, no patterns, and the built-in help text.
    pub fn new() -> (r: Self)
        ensures
            r.wf(),
            r.opt_map_spec() == Map::<char, Seq<char>>::empty(),
            r.patterns_spec() == Seq::<Seq<char>>::empty(),
            r.help_spec() == default_help(),
    {
        let help = CmdLineParse::help_txt();
        let r = CmdLineParse { opt_map: Vec::new(), patterns: Vec::new(), help_str: help };
        proof {
            assert(r.patterns_spec() =~= Seq::<Seq<char>>::empty());
        }
        r
    }

    /// The built-in usage message.
    fn help_txt() -> (r: String)
        ensures
            r@ == default_help(),
    {
        let mut s = String::from_str("\n  Help:\n  Options: /P . /p \"rs,txt\"");
        s.append(" /s /r \"abc\" /H /h");
        s
    }

    /// Whether a token is an option token: at least two characters, the
    /// first being the flag prefix `/`. Never panics, whatever the token.
    fn is_opt(&self, s: &str) -> (r: bool)
        ensures
            r == is_opt_token(s@),
    {
        if s.unicode_len() >= 2 {
            s.get_char(0) == '/'
        } else {
            false
        }
    }

    /// The position of the entry holding a key, if any.
    fn find_index(&self, opt: char) -> (r: Option<usize>)
        ensures
            match r {
                Some(i) => i < self.opt_map@.len() && self.opt_map@[i as int].0 == opt,
                None => forall|j: int|
                    0 <= j < self.opt_map@.len() ==> self.opt_map@[j].0 != opt,
            },
    {
        let mut i: usize = 0;
        while i < self.opt_map.len()
            invariant
                i <= self.opt_map@.len(),
                forall|j: int| 0 <= j < i ==> self.opt_map@[j].0 != opt,
            decreases self.opt_map@.len() - i,
        {
            if self.opt_map[i].0 == opt {
                return Some(i);
            }
            i += 1;
        }
        None
    }

    /// Whether the option map holds the given key.
    pub fn contains_option(&self, opt: char) -> (r: bool)
        ensures
            r == self.opt_map_spec().contains_key(opt),
    {
        proof {
            lemma_map_of_contains(self.opt_map@, opt);
        }
        self.find_index(opt).is_some()
    }

    /// The value stored under a key. The caller must first check
    /// `contains_option`: looking up an absent key is a contract violation.
    pub fn value(&self, opt: char) -> (r: &str)
        requires
            self.wf(),
            self.opt_map_spec().contains_key(opt),
        ensures
            r@ == self.opt_map_spec()[opt],
    {
        match self.find_index(opt) {
            Some(i) => {
                proof {
                    lemma_map_of_index(self.opt_map@, i as int);
                }
                self.opt_map[i].1.as_str()
            },
            None => {
                proof {
                    lemma_map_of_contains(self.opt_map@, opt);
                    assert(false);
                }
                vstd::pervasive::unreached()
            },
        }
    }

    /// Inserts a key when absent, else overwrites its value.
    pub fn add_option(&mut self, o: char, v: &str)
        requires
            old(self).wf(),
        ensures
            final(self).wf(),
            final(self).opt_map_spec() == old(self).opt_map_spec().insert(o, v@),
            final(self).patterns_spec() == old(self).patterns_spec(),
            final(self).help_spec() == old(self).help_spec(),
    {
        let val = String::from_str(v);
        match self.find_index(o) {
            Some(i) => {
                proof {
                    lemma_map_of_update(self.opt_map@, i as int, val);
                    assert(entry_keys_unique(self.opt_map@.update(i as int, (o, val))));
                }
                self.opt_map.set(i, (o, val));
            },
            None => {
                proof {
                    lemma_map_of_push(self.opt_map@, o, val);
                    assert(entry_keys_unique(self.opt_map@.push((o, val))));
                }
                self.opt_map.push((o, val));
            },
        }
    }

    /// Sets the root search path: the `P` option.
    pub fn set_path(&mut self, p: &str)
        requires
            old(self).wf(),
        ensures
            final(self).wf(),
            final(self).opt_map_spec() == old(self).opt_map_spec().insert('P', p@),
            final(self).patterns_spec() == old(self).patterns_spec(),
            final(self).help_spec() == old(self).help_spec(),
    {
        self.add_option('P', p);
    }

    /// Sets the name-matching regular expression: the `r` option.
    pub fn set_regex(&mut self, re: &str)
        requires
            old(self).wf(),
        ensures
            final(self).wf(),
            final(self).opt_map_spec() == old(self).opt_map_spec().insert('r', re@),
            final(self).patterns_spec() == old(self).patterns_spec(),
            final(self).help_spec() == old(self).help_spec(),
    {
        self.add_option('r', re);
    }

    /// The `r` option's value, or the match-all expression `.` when unset.
    pub fn get_regex(&self) -> (r: &str)
        requires
            self.wf(),
        ensures
            self.opt_map_spec().contains_key('r') ==> r@ == self.opt_map_spec()['r'],
            !self.opt_map_spec().contains_key('r') ==> r@ == "."@,
    {
        if self.contains_option('r') {
            self.value('r')
        } else {
            "."
        }
    }

    /// The `P` option's value, or the current-directory token `.` when
    /// unset.
    pub fn path(&self) -> (r: String)
        requires
            self.wf(),
        ensures
            self.opt_map_spec().contains_key('P') ==> r@ == self.opt_map_spec()['P'],
            !self.opt_map_spec().contains_key('P') ==> r@ == "."@,
    {
        if self.contains_option('P') {
            String::from_str(self.value('P'))
        } else {
            String::from_str(".")
        }
    }

    /// Pre-seeds the commonly used defaults: root path `.`, recurse,
    /// match-all regular expression, hide unused directories.
    pub fn default_options(&mut self)
        requires
            old(self).wf(),
        ensures
            final(self).wf(),
            final(self).opt_map_spec() == old(self).opt_map_spec().insert('P', "."@).insert(
                's',
                "true"@,
            ).insert('r', "."@).insert('H', "true"@),
            final(self).patterns_spec() == old(self).patterns_spec(),
            final(self).help_spec() == old(self).help_spec(),
    {
        self.add_option('P', ".");
        self.add_option('s', "true");
        self.add_option('r', ".");
        self.add_option('H', "true");
    }

    /// Whether the pattern list already holds the given pattern.
    fn contains_pattern(&self, s: &String) -> (r: bool)
        ensures
            r == views_of(self.patterns@).contains(s@),
    {
        let mut i: usize = 0;
        while i < self.patterns.len()
            invariant
                i <= self.patterns@.len(),
                forall|j: int| 0 <= j < i ==> views_of(self.patterns@)[j] != s@,
            decreases self.patterns@.len() - i,
        {
            if self.patterns[i] == *s {
                proof {
                    assert(views_of(self.patterns@)[i as int] == s@);
                }
                return true;
            }
            i += 1;
        }
        proof {
            assert(forall|j: int|
                0 <= j < views_of(self.patterns@).len() ==> views_of(self.patterns@)[j] != s@);
        }
        false
    }

    /// Appends a file-extension pattern unless it is already present.
    pub fn add_pattern(&mut self, p: &str)
        requires
            old(self).wf(),
        ensures
            final(self).wf(),
            final(self).patterns_spec() == add_pat(old(self).patterns_spec(), p@),
            final(self).opt_map_spec() == old(self).opt_map_spec(),
            final(self).help_spec() == old(self).help_spec(),
    {
        let s = String::from_str(p);
        if !self.contains_pattern(&s) {
            proof {
                assert(views_of(self.patterns@.push(s)) =~= views_of(self.patterns@).push(p@));
                assert(distinct(views_of(self.patterns@).push(p@)));
            }
            self.patterns.push(s);
        }
    }

    /// Directory separators of a path replaced: backslash to forward
    /// slash.
    fn replace_sep(path: &str) -> (r: String)
        ensures
            r@ == replace_sep_chars(path@),
    {
        let n = path.unicode_len();
        let mut r = String::new();
        proof {
            assert(r@ =~= replace_sep_chars(path@.take(0)));
        }
        let mut i: usize = 0;
        while i < n
            invariant
                i <= n,
                n == path@.len(),
                r@ == replace_sep_chars(path@.take(i as int)),
            decreases n - i,
        {
            let c = path.get_char(i);
            if c == '\\' {
                r.push('/');
            } else {
                r.push(c);
            }
            proof {
                assert(replace_sep_chars(path@.take(i as int + 1)) =~= replace_sep_chars(
                    path@.take(i as int),
                ).push(if path@[i as int] == '\\' { '/' } else { path@[i as int] }));
            }
            i += 1;
        }
        proof {
            assert(path@.take(n as int) =~= path@);
        }
        r
    }

    /// The clean absolute form of a resolution outcome. The caller
    /// resolves `path()` against the file system and hands over either the
    /// canonical path text or a description of the failure; the failure
    /// description is returned unchanged, the path text is returned with
    /// separators normalized and any extended-length prefix stripped.
    pub fn abs_path(&self, resolved: &Result<String, String>) -> (r: String)
        ensures
            resolved is Ok ==> r@ == abs_path_of(resolved->Ok_0@),
            resolved is Err ==> r@ == resolved->Err_0@,
    {
        match resolved {
            Ok(p) => {
                let fixed = CmdLineParse::replace_sep(p.as_str());
                let n = fixed.unicode_len();
                let fs = fixed.as_str();
                if n >= 4 && fs.get_char(0) == '/' && fs.get_char(1) == '/' && fs.get_char(2)
                    == '?' && fs.get_char(3) == '/' {
                    let tail = fs.substring_char(4, n);
                    proof {
                        assert(fixed@.subrange(4, n as int) =~= fixed@.skip(4));
                    }
                    String::from_str(tail)
                } else {
                    fixed
                }
            },
            Err(e) => e.clone(),
        }
    }

    /// The segments of a string split on commas, in order; empty segments
    /// are kept.
    fn split_commas_exec(s: &str) -> (r: Vec<String>)
        ensures
            views_of(r@) == split_commas(s@),
    {
        let n = s.unicode_len();
        let mut segs: Vec<String> = Vec::new();
        segs.push(String::new());
        proof {
            assert(s@.skip(n as int) =~= Seq::<char>::empty());
            assert(views_of(segs@) =~= split_commas(s@.skip(n as int)));
        }
        let mut i: usize = n;
        while i > 0
            invariant
                i <= n,
                n == s@.len(),
                segs@.len() >= 1,
                views_of(segs@) == split_commas(s@.skip(i as int)),
            decreases i,
        {
            let c = s.get_char(i - 1);
            proof {
                assert(s@.skip(i as int - 1)[0] == s@[i as int - 1]);
                assert(s@.skip(i as int - 1).skip(1) =~= s@.skip(i as int));
            }
            if c == ',' {
                segs.insert(0, String::new());
                proof {
                    assert(views_of(segs@) =~= split_commas(s@.skip(i as int - 1)));
                }
            } else {
                let mut t = String::new();
                t.push(c);
                t.append(segs[0].as_str());
                proof {
                    assert(t@ =~= seq![s@[i as int - 1]] + views_of(segs@)[0]);
                }
                segs.set(0, t);
                proof {
                    assert(views_of(segs@) =~= split_commas(s@.skip(i as int - 1)));
                }
            }
            i -= 1;
        }
        proof {
            assert(s@.skip(0) =~= s@);
        }
        segs
    }

    /// One full pass over a snapshot of the command-line tokens: token 0,
    /// the program name, is skipped; every option token inserts its key
    /// with the following token's text, or `"true"` when no value token
    /// follows; then the `p` option's value, when present, is split on
    /// commas and each segment joins the pattern list under the duplicate
    /// rule.
    pub fn parse(&mut self, cl_args: &Vec<String>)
        requires
            old(self).wf(),
        ensures
            final(self).wf(),
            final(self).opt_map_spec() == parse_opts(
                views_of(cl_args@),
                1,
                old(self).opt_map_spec(),
            ),
            final(self).patterns_spec() == (if parse_opts(
                views_of(cl_args@),
                1,
                old(self).opt_map_spec(),
            ).contains_key('p') {
                add_pats(
                    old(self).patterns_spec(),
                    split_commas(
                        parse_opts(views_of(cl_args@), 1, old(self).opt_map_spec())['p'],
                    ),
                )
            } else {
                old(self).patterns_spec()
            }),
            final(self).help_spec() == old(self).help_spec(),
    {
        let ghost av = views_of(cl_args@);
        let ghost m0 = self.opt_map_spec();
        let ghost p0 = self.patterns_spec();
        let ghost h0 = self.help_spec();
        let end = cl_args.len();
        let mut i: usize = 1;
        while i < end
            invariant
                1 <= i,
                end == cl_args@.len(),
                av == views_of(cl_args@),
                self.wf(),
                parse_opts(av, i as int, self.opt_map_spec()) == parse_opts(av, 1, m0),
                self.patterns_spec() == p0,
                self.help_spec() == h0,
            decreases end - i,
        {
            proof {
                assert(av[i as int] == cl_args@[i as int]@);
            }
            if self.is_opt(cl_args[i].as_str()) {
                let key = cl_args[i].as_str().get_char(1);
                if i < end - 1 && !self.is_opt(cl_args[i + 1].as_str()) {
                    proof {
                        assert(av[i as int + 1] == cl_args@[i as int + 1]@);
                        assert(opt_value(av, i as int) == av[i as int + 1]);
                    }
                    self.add_option(key, cl_args[i + 1].as_str());
                } else {
                    proof {
                        if i as int + 1 < av.len() {
                            assert(av[i as int + 1] == cl_args@[i as int + 1]@);
                        }
                        assert(opt_value(av, i as int) == "true"@);
                    }
                    self.add_option(key, "true");
                }
            }
            i += 1;
        }
        let ghost mfin = parse_opts(av, 1, m0);
        proof {
            assert(self.opt_map_spec() == mfin);
        }
        if self.contains_option('p') {
            let pat_str = String::from_str(self.value('p'));
            let segs = CmdLineParse::split_commas_exec(pat_str.as_str());
            let ghost sv = views_of(segs@);
            proof {
                assert(sv == split_commas(mfin['p']));
                assert(sv.take(0) =~= Seq::<Seq<char>>::empty());
            }
            let mut j: usize = 0;
            while j < segs.len()
                invariant
                    j <= segs@.len(),
                    sv == views_of(segs@),
                    self.wf(),
                    self.patterns_spec() == add_pats(p0, sv.take(j as int)),
                    self.opt_map_spec() == mfin,
                    self.help_spec() == h0,
                decreases segs@.len() - j,
            {
                proof {
                    assert(sv[j as int] == segs@[j as int]@);
                }
                self.add_pattern(segs[j].as_str());
                proof {
                    assert(sv.take(j as int + 1) =~= sv.take(j as int).push(sv[j as int]));
                    lemma_add_pats_snoc(p0, sv.take(j as int), sv[j as int]);
                }
                j += 1;
            }
            proof {
                assert(sv.take(segs@.len() as int) =~= sv);
            }
        }
    }

    /// The pattern list, in insertion order.
    pub fn patterns(&self) -> (r: &Vec<String>)
        ensures
            views_of(r@) == self.patterns_spec(),
    {
        &self.patterns
    }

    /// The option entries: each key paired with its value, keys unique.
    pub fn options(&self) -> (r: &Vec<(char, String)>)
        ensures
            map_of(r@) == self.opt_map_spec(),
            self.wf() ==> entry_keys_unique(r@),
    {
        &self.opt_map
    }

    /// The help text.
    pub fn help(&self) -> (r: &str)
        ensures
            r@ == self.help_spec(),
    {
        self.help_str.as_str()
    }

    /// Replaces the help text.
    pub fn replace_help(&mut self, s: &str)
        requires
            old(self).wf(),
        ensures
            final(self).wf(),
            final(self).help_spec() == s@,
            final(self).opt_map_spec() == old(self).opt_map_spec(),
            final(self).patterns_spec() == old(self).patterns_spec(),
    {
        self.help_str = String::from_str(s);
    }
}

} // verus!
