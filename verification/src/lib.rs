//! A shell backend for games: the host feeds it lines of script text, the
//! shell tokenizes them against a small grammar and dispatches recognized
//! command names to registered handlers, forwarding the argument remainder
//! and two in-memory output channels.

use vstd::prelude::*;

pub mod code;
pub mod io;
pub mod parser;

verus! {

use crate::code::{Code, CodeError, Invokable, valid_name};
use crate::io::Stream;
use crate::parser::{Token, TokenView, find_space, space_split, spec_tokens, token_views, tokenize};
use vstd::string::StrSliceExecFns;

/// Errors returned by shell operations.
#[derive(Debug, PartialEq, Eq)]
pub enum ShellError {
    /// A code with this name is already registered.
    NameCollision { name: String },
    /// No code with this name is registered.
    NotFound { name: String },
    /// Constructing the code failed; carries the construction error.
    CodeError { err: CodeError },
}

/// A combined readable and writable byte channel.
///
/// The shell writes handler output to such channels and exposes them for the
/// host to drain. `contents` is the channel's current byte queue, oldest
/// byte first.
pub trait ReadWrite {
    /// The bytes currently held by the channel, oldest first.
    spec fn contents(&self) -> Seq<u8>;

    /// Appends `buf` to the channel and reports how many bytes were written
    /// (always all of them).
    fn write(&mut self, buf: &[u8]) -> (n: usize)
        ensures
            final(self).contents() == old(self).contents() + buf@,
            n == buf@.len(),
    ;

    /// Removes up to `count` bytes from the front of the channel and returns
    /// them, oldest first.
    fn read(&mut self, count: usize) -> (r: Vec<u8>)
        ensures
            r@ == old(self).contents().take(
                vstd::math::min(count as int, old(self).contents().len() as int),
            ),
            final(self).contents() == old(self).contents().skip(
                vstd::math::min(count as int, old(self).contents().len() as int),
            ),
    ;

    /// Does nothing: the channel is an in-memory queue.
    fn flush(&mut self)
        ensures
            final(self).contents() == old(self).contents(),
    ;
}

/// True when `reg` is a well-formed registry: every name is valid and no
/// name appears twice.
pub open spec fn registry_wf<H>(reg: Seq<(Seq<char>, H)>) -> bool {
    &&& forall|i: int| 0 <= i < reg.len() ==> valid_name((#[trigger] reg[i]).0)
    &&& forall|i: int, j: int|
        0 <= i < j < reg.len() ==> (#[trigger] reg[i]).0 != (#[trigger] reg[j]).0
}

/// True when `reg` holds an entry named `name`.
pub open spec fn registry_has<H>(reg: Seq<(Seq<char>, H)>, name: Seq<char>) -> bool {
    exists|i: int| 0 <= i < reg.len() && (#[trigger] reg[i]).0 == name
}

/// The index of the entry named `name`; meaningful only when one exists (it
/// is then unique in a well-formed registry).
pub open spec fn name_index<H>(reg: Seq<(Seq<char>, H)>, name: Seq<char>) -> int {
    choose|i: int| 0 <= i < reg.len() && (#[trigger] reg[i]).0 == name
}

/// The handler bound to `name`; meaningful only when the name is registered.
pub open spec fn handler_of<H>(reg: Seq<(Seq<char>, H)>, name: Seq<char>) -> H {
    reg[name_index(reg, name)].1
}

/// True when `q` is a prefix of `n`.
pub open spec fn is_prefix_of(q: Seq<char>, n: Seq<char>) -> bool {
    q.len() <= n.len() && forall|k: int| 0 <= k < q.len() ==> q[k] == #[trigger] n[k]
}

/// True when `q` occurs in `n` starting at offset `off`.
pub open spec fn matches_at(q: Seq<char>, n: Seq<char>, off: int) -> bool {
    forall|k: int| 0 <= k < q.len() ==> #[trigger] q[k] == n[off + k]
}

/// True when `q` occurs somewhere in `n`.
pub open spec fn is_substring_of(q: Seq<char>, n: Seq<char>) -> bool {
    exists|off: int| 0 <= off && off + q.len() <= n.len() && #[trigger] matches_at(q, n, off)
}

/// True when `name` answers to the query: with `starts_with`, the query is
/// a prefix of the name; without it, the query occurs in the name.
pub open spec fn name_matches(name: Seq<char>, query: Seq<char>, starts_with: bool) -> bool {
    if starts_with {
        is_prefix_of(query, name)
    } else {
        is_substring_of(query, name)
    }
}

/// The names of `names` that answer to the query, in their original order.
pub open spec fn filtered_names(
    names: Seq<Seq<char>>,
    query: Seq<char>,
    starts_with: bool,
) -> Seq<Seq<char>>
    decreases names.len(),
{
    if names.len() == 0 {
        Seq::empty()
    } else {
        let rest = filtered_names(names.drop_last(), query, starts_with);
        if name_matches(names.last(), query, starts_with) {
            rest.push(names.last())
        } else {
            rest
        }
    }
}

/// The name part of a single command line: everything before the first
/// space, or the whole line when it has no space.
pub open spec fn line_name(s: Seq<char>) -> Seq<char> {
    s.subrange(0, space_split(s, 0, s.len() as int))
}

/// A shell for a game: a registry of named codes and two output channels.
pub struct Shell<H> {
    codes: Vec<Code<H>>,
    /// Standard output channel; handlers write to it, the host drains it.
    pub stdout: Stream,
    /// Standard error channel; handlers write to it, the host drains it.
    pub stderr: Stream,
}

impl<H> Shell<H> {
    /// The registry's contents: each registered name paired with its
    /// handler, in registration order.
    pub closed spec fn registry(&self) -> Seq<(Seq<char>, H)> {
        self.codes@.map_values(|c: Code<H>| (c.name@, c.invokable))
    }

    /// The registered names, in registration order.
    pub open spec fn names(&self) -> Seq<Seq<char>> {
        self.registry().map_values(|e: (Seq<char>, H)| e.0)
    }

    /// True when a code named `name` is registered.
    pub open spec fn contains_name(&self, name: Seq<char>) -> bool {
        registry_has(self.registry(), name)
    }

    /// The shell's invariant: its registry is well-formed.
    pub open spec fn wf(&self) -> bool {
        registry_wf(self.registry())
    }

    /// The bytes currently queued in the standard output channel.
    pub closed spec fn out_contents(&self) -> Seq<u8> {
        self.stdout.contents()
    }

    /// The bytes currently queued in the standard error channel.
    pub closed spec fn err_contents(&self) -> Seq<u8> {
        self.stderr.contents()
    }
}

impl<H: Invokable> Shell<H> {
    /// Creates a shell with an empty registry and two fresh channels.
    pub fn new() -> (r: Shell<H>)
        ensures
            r.wf(),
            r.registry() == Seq::<(Seq<char>, H)>::empty(),
            r.out_contents() == Seq::<u8>::empty(),
            r.err_contents() == Seq::<u8>::empty(),
    {
        let r = Shell { codes: Vec::new(), stdout: Stream::new(), stderr: Stream::new() };
        proof {
            assert(r.registry() =~= Seq::<(Seq<char>, H)>::empty());
        }
        r
    }

    /// Creates a shell with an empty registry and caller-supplied channels,
    /// falling back to fresh default channels where one is omitted.
    pub fn new_with_channels(stdout: Option<Stream>, stderr: Option<Stream>) -> (r: Shell<H>)
        ensures
            r.wf(),
            r.registry() == Seq::<(Seq<char>, H)>::empty(),
            r.out_contents() == match stdout {
                Some(s) => s.contents(),
                None => Seq::<u8>::empty(),
            },
            r.err_contents() == match stderr {
                Some(s) => s.contents(),
                None => Seq::<u8>::empty(),
            },
    {
        let out = match stdout {
            Some(s) => s,
            None => Stream::new(),
        };
        let err = match stderr {
            Some(s) => s,
            None => Stream::new(),
        };
        let r = Shell { codes: Vec::new(), stdout: out, stderr: err };
        proof {
            assert(r.registry() =~= Seq::<(Seq<char>, H)>::empty());
        }
        r
    }

    /// The index of the code named `name`, when one is registered.
    fn find_code(&self, name: &str) -> (r: Option<usize>)
        ensures
            match r {
                Some(i) => i < self.registry().len() && self.registry()[i as int].0 == name@,
                None => !self.contains_name(name@),
            },
    {
        let len = self.codes.len();
        let mut i: usize = 0;
        while i < len
            invariant
                i <= len,
                len == self.codes.len(),
                forall|k: int| 0 <= k < i ==> (#[trigger] self.registry()[k]).0 != name@,
            decreases len - i,
        {
            if str_eq(self.codes[i].name.as_str(), name) {
                return Some(i);
            }
            i = i + 1;
        }
        None
    }

    /// Registers a code under `name`. Fails with
    /// [`ShellError::NameCollision`] when the name is already registered,
    /// and with [`ShellError::CodeError`] when the name is invalid (it
    /// contains whitespace); in both cases the shell is left unchanged. On
    /// success the new entry is appended to the registry.
    pub fn register(&mut self, name: &str, invokable: H) -> (r: Result<(), ShellError>)
        requires
            old(self).wf(),
        ensures
            final(self).wf(),
            final(self).out_contents() == old(self).out_contents(),
            final(self).err_contents() == old(self).err_contents(),
            old(self).contains_name(name@) ==> {
                &&& (r matches Err(ShellError::NameCollision { name: n }) && n@ == name@)
                &&& final(self).registry() == old(self).registry()
            },
            !old(self).contains_name(name@) && !valid_name(name@) ==> {
                &&& (r matches Err(ShellError::CodeError {
                    err: CodeError::InvalidName { name: n },
                }) && n@ == name@)
                &&& final(self).registry() == old(self).registry()
            },
            !old(self).contains_name(name@) && valid_name(name@) ==> {
                &&& r is Ok
                &&& final(self).registry() == old(self).registry().push((name@, invokable))
            },
    {
        match self.find_code(name) {
            Some(_) => Err(ShellError::NameCollision { name: name.to_owned() }),
            None => match Code::new(name, invokable) {
                Ok(c) => {
                    proof {
                        lemma_register_collision(self.registry(), name@, invokable);
                    }
                    self.codes.push(c);
                    proof {
                        assert(self.registry() =~= old(self).registry().push((name@, invokable)));
                    }
                    Ok(())
                },
                Err(e) => Err(ShellError::CodeError { err: e }),
            },
        }
    }

    /// Unregisters the code named `name`. Fails with
    /// [`ShellError::NotFound`] when no such code is registered, leaving the
    /// shell unchanged. On success exactly the one matching entry is
    /// removed; all others keep their order.
    pub fn unregister(&mut self, name: &str) -> (r: Result<(), ShellError>)
        requires
            old(self).wf(),
        ensures
            final(self).wf(),
            final(self).out_contents() == old(self).out_contents(),
            final(self).err_contents() == old(self).err_contents(),
            !old(self).contains_name(name@) ==> {
                &&& (r matches Err(ShellError::NotFound { name: n }) && n@ == name@)
                &&& final(self).registry() == old(self).registry()
            },
            old(self).contains_name(name@) ==> {
                &&& r is Ok
                &&& final(self).registry() == old(self).registry().remove(
                    name_index(old(self).registry(), name@),
                )
            },
    {
        match self.find_code(name) {
            None => Err(ShellError::NotFound { name: name.to_owned() }),
            Some(idx) => {
                proof {
                    let reg = old(self).registry();
                    let ci = name_index(reg, name@);
                    assert(0 <= ci < reg.len() && reg[ci].0 == name@);
                    if ci != idx as int {
                        assert(reg[ci].0 != reg[idx as int].0);
                    }
                    lemma_remove_preserves_wf(reg, idx as int);
                }
                self.codes.remove(idx);
                proof {
                    assert(self.registry() =~= old(self).registry().remove(idx as int));
                }
                Ok(())
            },
        }
    }

    /// Returns the registered names that answer to `query`, in registration
    /// order: with `starts_with`, those the query is a prefix of; without
    /// it, those the query occurs in.
    pub fn filter_names(&self, query: &str, starts_with: bool) -> (r: Vec<String>)
        ensures
            r@.map_values(|s: String| s@) == filtered_names(self.names(), query@, starts_with),
    {
        let len = self.codes.len();
        let mut r: Vec<String> = Vec::new();
        let mut i: usize = 0;
        proof {
            assert(r@.map_values(|s: String| s@) =~= filtered_names(
                self.names().take(0),
                query@,
                starts_with,
            ));
        }
        while i < len
            invariant
                i <= len,
                len == self.codes.len(),
                self.names().len() == len,
                r@.map_values(|s: String| s@) == filtered_names(
                    self.names().take(i as int),
                    query@,
                    starts_with,
                ),
            decreases len - i,
        {
            let ghost prev = r@;
            let matched = if starts_with {
                str_starts_with(self.codes[i].name.as_str(), query)
            } else {
                str_contains(self.codes[i].name.as_str(), query)
            };
            if matched {
                r.push(self.codes[i].name.clone());
            }
            i = i + 1;
            proof {
                let ghost gnames = self.names();
                assert(gnames.take(i as int).drop_last() =~= gnames.take(i - 1));
                assert(gnames.take(i as int).last() == gnames[i - 1]);
                assert(gnames[i - 1] == self.codes@[i - 1].name@);
                if matched {
                    assert(r@.map_values(|s: String| s@) =~= prev.map_values(|s: String| s@).push(
                        self.codes@[i - 1].name@,
                    ));
                }
            }
        }
        proof {
            assert(self.names().take(len as int) =~= self.names());
        }
        r
    }

    /// True when running `input` can invoke nothing: no invocation token of
    /// the script names a registered code.
    pub open spec fn script_is_silent(&self, text: Seq<char>) -> bool {
        forall|k: int|
            0 <= k < spec_tokens(text, false).len() ==> ((#[trigger] spec_tokens(
                text,
                false,
            )[k]) matches TokenView::Invocation(nm, _) ==> !self.contains_name(nm))
    }

    /// Runs a script: tokenizes all of `input` and, for every invocation
    /// token whose name is registered, invokes its handler with the
    /// argument remainder and the two channels, in token order. Unknown
    /// names, comments and ignorable input are skipped. The registry is
    /// left unchanged; the channels hold whatever the handlers wrote — and
    /// a script that invokes nothing leaves them untouched.
    pub fn run(&mut self, input: &str)
        requires
            old(self).wf(),
        ensures
            final(self).wf(),
            final(self).registry() == old(self).registry(),
            old(self).script_is_silent(input@) ==> {
                &&& final(self).out_contents() == old(self).out_contents()
                &&& final(self).err_contents() == old(self).err_contents()
            },
    {
        let toks = tokenize(input, false);
        let tlen = toks.len();
        let mut ti: usize = 0;
        while ti < tlen
            invariant
                tlen == toks.len(),
                token_views(toks@) == spec_tokens(input@, false),
                self.registry() == old(self).registry(),
                self.wf(),
                old(self).script_is_silent(input@) ==> (self.stdout == old(self).stdout
                    && self.stderr == old(self).stderr),
            decreases tlen - ti,
        {
            let ghost gti = ti as int;
            match &toks[ti] {
                Token::Invocation(name, args) => {
                    match self.find_code(name.as_str()) {
                        Some(idx) => {
                            proof {
                                if old(self).script_is_silent(input@) {
                                    assert(spec_tokens(input@, false)[gti] == toks@[gti]@);
                                    assert(old(self).contains_name(name@));
                                    assert(false);
                                }
                            }
                            let c = &self.codes[idx];
                            c.invokable.invoke(args.as_str(), &mut self.stdout, &mut self.stderr);
                        },
                        None => {},
                    }
                },
                _ => {},
            }
            ti = ti + 1;
        }
    }

    /// Dispatches a single command line: `input` is split once on its first
    /// space into a name and the argument remainder, and the named code, if
    /// registered, is invoked with that remainder. No comment or multi-line
    /// handling happens here; an unknown name is reported as
    /// [`ShellError::NotFound`]. The registry is left unchanged.
    pub fn run_line(&mut self, input: &str) -> (r: Result<(), ShellError>)
        requires
            old(self).wf(),
        ensures
            final(self).wf(),
            final(self).registry() == old(self).registry(),
            r is Ok <==> old(self).contains_name(line_name(input@)),
            r is Err ==> {
                &&& (r matches Err(ShellError::NotFound { name: n }) && n@ == line_name(input@))
                &&& final(self).out_contents() == old(self).out_contents()
                &&& final(self).err_contents() == old(self).err_contents()
            },
    {
        let n = input.unicode_len();
        let k = find_space(input, 0, n);
        let name = input.substring_char(0, k);
        match self.find_code(name) {
            Some(idx) => {
                let args = if k < n {
                    input.substring_char(k + 1, n)
                } else {
                    ""
                };
                let c = &self.codes[idx];
                c.invokable.invoke(args, &mut self.stdout, &mut self.stderr);
                Ok(())
            },
            None => Err(ShellError::NotFound { name: name.to_owned() }),
        }
    }
}

/// Law: registering a fresh, valid name and then unregistering it returns
/// the registry to its prior state.
pub proof fn lemma_register_unregister_round_trip<H>(
    reg: Seq<(Seq<char>, H)>,
    name: Seq<char>,
    invokable: H,
)
    requires
        registry_wf(reg),
        valid_name(name),
        !registry_has(reg, name),
    ensures
        registry_has(reg.push((name, invokable)), name),
        reg.push((name, invokable)).remove(name_index(reg.push((name, invokable)), name)) == reg,
{
    let reg1 = reg.push((name, invokable));
    assert(reg1[reg.len() as int].0 == name);
    assert(registry_has(reg1, name));
    let ci = name_index(reg1, name);
    assert(0 <= ci < reg1.len() && reg1[ci].0 == name);
    if ci < reg.len() {
        assert(reg1[ci] == reg[ci]);
        assert(!(0 <= ci < reg.len() && reg[ci].0 == name));
    }
    assert(ci == reg.len());
    assert(reg1.remove(ci) =~= reg);
}

/// Law: after a successful registration the name is present — a second
/// registration of the same name must collide — and the handler bound to
/// the name is the one just registered. Since a collision leaves the
/// registry unchanged, that handler stays bound.
pub proof fn lemma_register_collision<H>(reg: Seq<(Seq<char>, H)>, name: Seq<char>, invokable: H)
    requires
        registry_wf(reg),
        valid_name(name),
        !registry_has(reg, name),
    ensures
        registry_wf(reg.push((name, invokable))),
        registry_has(reg.push((name, invokable)), name),
        handler_of(reg.push((name, invokable)), name) == invokable,
{
    let reg1 = reg.push((name, invokable));
    assert(reg1[reg.len() as int].0 == name);
    assert(registry_has(reg1, name));
    assert forall|i: int, j: int| 0 <= i < j < reg1.len() implies (#[trigger] reg1[i]).0 != (
    #[trigger] reg1[j]).0 by {
        if j < reg.len() {
            assert(reg1[i] == reg[i] && reg1[j] == reg[j]);
        } else {
            assert(reg1[i] == reg[i] && reg1[j].0 == name);
            assert(!(0 <= i < reg.len() && reg[i].0 == name));
        }
    }
    assert forall|i: int| 0 <= i < reg1.len() implies valid_name((#[trigger] reg1[i]).0) by {
        if i < reg.len() {
            assert(reg1[i] == reg[i]);
        }
    }
    let ci = name_index(reg1, name);
    assert(0 <= ci < reg1.len() && reg1[ci].0 == name);
    if ci < reg.len() {
        assert(reg1[ci] == reg[ci]);
        assert(!(0 <= ci < reg.len() && reg[ci].0 == name));
    }
    assert(ci == reg.len());
}

/// Removing an entry from a well-formed registry leaves it well-formed.
proof fn lemma_remove_preserves_wf<H>(reg: Seq<(Seq<char>, H)>, i: int)
    requires
        registry_wf(reg),
        0 <= i < reg.len(),
    ensures
        registry_wf(reg.remove(i)),
{
    let r2 = reg.remove(i);
    assert forall|a: int| 0 <= a < r2.len() implies valid_name((#[trigger] r2[a]).0) by {
        if a < i {
            assert(r2[a] == reg[a]);
        } else {
            assert(r2[a] == reg[a + 1]);
        }
    }
    assert forall|a: int, b: int| 0 <= a < b < r2.len() implies (#[trigger] r2[a]).0 != (
    #[trigger] r2[b]).0 by {
        let oa = if a < i {
            a
        } else {
            a + 1
        };
        let ob = if b < i {
            b
        } else {
            b + 1
        };
        assert(r2[a] == reg[oa]);
        assert(r2[b] == reg[ob]);
    }
}

/// Character-wise string equality: true exactly when the views agree.
fn str_eq(a: &str, b: &str) -> (r: bool)
    ensures
        r == (a@ == b@),
{
    let na = a.unicode_len();
    let nb = b.unicode_len();
    if na != nb {
        return false;
    }
    let mut i: usize = 0;
    while i < na
        invariant
            i <= na,
            na == a@.len(),
            na == b@.len(),
            forall|k: int| 0 <= k < i ==> a@[k] == b@[k],
        decreases na - i,
    {
        if a.get_char(i) != b.get_char(i) {
            return false;
        }
        i = i + 1;
    }
    proof {
        assert(a@ =~= b@);
    }
    true
}

/// Character-wise prefix test.
fn str_starts_with(n: &str, q: &str) -> (r: bool)
    ensures
        r == is_prefix_of(q@, n@),
{
    let nq = q.unicode_len();
    let nn = n.unicode_len();
    if nq > nn {
        return false;
    }
    let mut k: usize = 0;
    while k < nq
        invariant
            k <= nq,
            nq == q@.len(),
            nn == n@.len(),
            nq <= nn,
            forall|j: int| 0 <= j < k ==> q@[j] == #[trigger] n@[j],
        decreases nq - k,
    {
        if n.get_char(k) != q.get_char(k) {
            return false;
        }
        k = k + 1;
    }
    true
}

/// True when `q` occurs in `n` starting at `off`, character by character.
fn str_matches_at(n: &str, q: &str, off: usize) -> (r: bool)
    requires
        off + q@.len() <= n@.len(),
    ensures
        r == matches_at(q@, n@, off as int),
{
    let nq = q.unicode_len();
    let nn = n.unicode_len();
    let mut k: usize = 0;
    while k < nq
        invariant
            k <= nq,
            nq == q@.len(),
            nn == n@.len(),
            off + nq <= nn,
            forall|j: int| 0 <= j < k ==> #[trigger] q@[j] == n@[off + j],
        decreases nq - k,
    {
        if n.get_char(off + k) != q.get_char(k) {
            return false;
        }
        k = k + 1;
    }
    true
}

/// Character-wise substring test.
fn str_contains(n: &str, q: &str) -> (r: bool)
    ensures
        r == is_substring_of(q@, n@),
{
    let nq = q.unicode_len();
    let nn = n.unicode_len();
    if nq > nn {
        return false;
    }
    let mut off: usize = 0;
    while off <= nn - nq
        invariant
            nq == q@.len(),
            nn == n@.len(),
            nq <= nn,
            off <= nn - nq + 1,
            forall|o: int| 0 <= o < off ==> !#[trigger] matches_at(q@, n@, o),
        decreases nn - nq - off + 1,
    {
        if str_matches_at(n, q, off) {
            return true;
        }
        off = off + 1;
    }
    false
}

} // verus!
