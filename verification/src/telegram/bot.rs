//! Command parsing, the handler registry and the dispatch decision for each
//! inbound message, and the rendering of search replies with their entry and
//! byte-length caps. Sending, tracking and the worker pool that runs the
//! asynchronous tasks live with the callers; everything here is a pure
//! function from the message text and the search outcome to the action or
//! reply text.

use vstd::prelude::*;

verus! {

use crate::Package;
use crate::error::Error;
use crate::telegram::html::{
    HtmlMessageBuilder,
    builder_message,
    byte_len,
    lemma_encode_utf8_concat,
};

/// A reply never reaches or exceeds this many bytes.
pub const MAX_MESSAGE_LENGTH: usize = 4096;

/// Size of the worker pool that runs search and tracking tasks.
pub const SEARCH_WORKERS_COUNT: usize = 4;

/// Word characters are ASCII letters, digits and the underscore; a command
/// name consists of these.
pub open spec fn is_word_char(c: char) -> bool {
    (97 <= c as u32 && c as u32 <= 122) || (65 <= c as u32 && c as u32 <= 90) || (48 <= c as u32
        && c as u32 <= 57) || c == '_'
}

/// Whitespace characters: space and the ASCII control whitespace.
pub open spec fn is_space(c: char) -> bool {
    c as u32 == 32 || (9 <= c as u32 && c as u32 <= 13)
}

fn char_is_word(c: char) -> (b: bool)
    ensures
        b == is_word_char(c),
{
    let u = c as u32;
    (97 <= u && u <= 122) || (65 <= u && u <= 90) || (48 <= u && u <= 57) || u == 95
}

fn char_is_space(c: char) -> (b: bool)
    ensures
        b == is_space(c),
{
    let u = c as u32;
    u == 32 || (9 <= u && u <= 13)
}

/// The index just past the run of word characters starting at `i`.
pub open spec fn word_end(t: Seq<char>, i: int) -> int
    recommends
        0 <= i <= t.len(),
    decreases t.len() - i when 0 <= i <= t.len()
{
    if i < t.len() && is_word_char(t[i]) {
        word_end(t, i + 1)
    } else {
        i
    }
}

/// The index of the first non-whitespace character at or after `i`.
pub open spec fn skip_spaces(t: Seq<char>, i: int) -> int
    recommends
        0 <= i <= t.len(),
    decreases t.len() - i when 0 <= i <= t.len()
{
    if i < t.len() && is_space(t[i]) {
        skip_spaces(t, i + 1)
    } else {
        i
    }
}

/// The index just past the last non-whitespace character before `i`.
pub open spec fn rskip_spaces(t: Seq<char>, i: int) -> int
    recommends
        0 <= i <= t.len(),
    decreases i when 0 <= i <= t.len()
{
    if i > 0 && is_space(t[i - 1]) {
        rskip_spaces(t, i - 1)
    } else {
        i
    }
}

/// The text with leading and trailing whitespace removed.
pub open spec fn trim_spec(t: Seq<char>) -> Seq<char> {
    let a = skip_spaces(t, 0);
    if a == t.len() {
        Seq::empty()
    } else {
        t.subrange(a, rskip_spaces(t, t.len() as int))
    }
}

/// What `Command::parse` recognizes: a `/`, immediately followed by one or
/// more word characters (the name), followed by the argument text, which is
/// taken with surrounding whitespace trimmed. Anything else is not a command.
pub open spec fn parse_spec(t: Seq<char>) -> Option<(Seq<char>, Seq<char>)> {
    if t.len() >= 2 && t[0] == '/' && is_word_char(t[1]) {
        Some((t.subrange(1, word_end(t, 1)), trim_spec(t.skip(word_end(t, 1)))))
    } else {
        None
    }
}

/// A parsed command never has an empty name.
pub proof fn lemma_parse_name_nonempty(t: Seq<char>)
    ensures
        parse_spec(t) matches Some(p) ==> p.0.len() > 0,
{
    if t.len() >= 2 && t[0] == '/' && is_word_char(t[1]) {
        lemma_word_end_bounds(t, 2);
        assert(word_end(t, 1) == word_end(t, 2));
        assert(parse_spec(t) matches Some(p) && p.0 == t.subrange(1, word_end(t, 1)));
        assert(t.subrange(1, word_end(t, 1)).len() == word_end(t, 1) - 1);
    }
}

proof fn lemma_word_end_bounds(t: Seq<char>, i: int)
    requires
        0 <= i <= t.len(),
    ensures
        i <= word_end(t, i) <= t.len(),
    decreases t.len() - i,
{
    if i < t.len() && is_word_char(t[i]) {
        lemma_word_end_bounds(t, i + 1);
    }
}

/// A structured command: its name and its argument text.
pub struct Command {
    pub name: String,
    pub query: String,
}

impl Command {
    /// Parses `/<name><whitespace><free text>`; rejects any other shape.
    pub fn parse(t: &str) -> (r: Option<Command>)
        ensures
            match parse_spec(t@) {
                Some(p) => r matches Some(cmd) && cmd.name@ == p.0 && cmd.query@ == p.1,
                None => r is None,
            },
    {
        let len = t.unicode_len();
        if len < 2 {
            return None;
        }
        if t.get_char(0) != '/' {
            return None;
        }
        if !char_is_word(t.get_char(1)) {
            return None;
        }
        let mut e: usize = 1;
        loop
            invariant
                1 <= e <= len,
                len == t@.len(),
                word_end(t@, 1) == word_end(t@, e as int),
            ensures
                1 <= e <= len,
                len == t@.len(),
                e as int == word_end(t@, 1),
            decreases len - e,
        {
            if e >= len {
                break ;
            }
            if !char_is_word(t.get_char(e)) {
                break ;
            }
            e = e + 1;
        }
        let name = String::from_str(t.substring_char(1, e));
        let rest = t.substring_char(e, len);
        let query = trim_text(rest);
        proof {
            assert(rest@ =~= t@.skip(e as int));
        }
        Some(Command { name, query })
    }
}

/// The text with surrounding whitespace removed.
pub fn trim_text(s: &str) -> (r: String)
    ensures
        r@ == trim_spec(s@),
{
    let rlen = s.unicode_len();
    let mut a: usize = 0;
    loop
        invariant
            a <= rlen,
            rlen == s@.len(),
            skip_spaces(s@, 0) == skip_spaces(s@, a as int),
        ensures
            a <= rlen,
            a as int == skip_spaces(s@, 0),
            a == rlen || !is_space(s@[a as int]),
        decreases rlen - a,
    {
        if a >= rlen {
            break ;
        }
        if !char_is_space(s.get_char(a)) {
            break ;
        }
        a = a + 1;
    }
    if a == rlen {
        String::new()
    } else {
        let mut b: usize = rlen;
        loop
            invariant
                a < b <= rlen,
                rlen == s@.len(),
                !is_space(s@[a as int]),
                rskip_spaces(s@, rlen as int) == rskip_spaces(s@, b as int),
            ensures
                a < b <= rlen,
                b as int == rskip_spaces(s@, rlen as int),
            decreases b,
        {
            if !char_is_space(s.get_char(b - 1)) {
                break ;
            }
            b = b - 1;
        }
        String::from_str(s.substring_char(a, b))
    }
}

/// A field is rendered only when it is present and non-empty.
pub open spec fn nonempty_text(s: Seq<char>) -> Option<Seq<char>> {
    if s.len() > 0 {
        Some(s)
    } else {
        None
    }
}

/// The present-and-non-empty fields of an optional text.
pub open spec fn opt_nonempty(o: Option<Seq<char>>) -> Option<Seq<char>> {
    match o {
        Some(s) => nonempty_text(s),
        None => None,
    }
}

/// The block rendered for one package record.
pub open spec fn package_block(p: Package) -> Seq<char> {
    builder_message(
        Some(p.name@),
        opt_nonempty(p.repository.deep_view()),
        opt_nonempty(p.documentation.deep_view()),
        opt_nonempty(p.description.deep_view()),
    )
}

/// Renders one block from the package's fields; empty texts stand for absent
/// fields and are left out.
pub fn render_html_message(name: &str, description: &str, url: &str, doc_url: &str) -> (r: String)
    ensures
        r@ == builder_message(
            Some(name@),
            nonempty_text(url@),
            nonempty_text(doc_url@),
            nonempty_text(description@),
        ),
{
    let mut msg_builder = HtmlMessageBuilder::new();
    msg_builder.name(name);

    if !description.is_empty() {
        msg_builder.description(description);
    }

    if !url.is_empty() {
        msg_builder.repo_url(url);
    }

    if !doc_url.is_empty() {
        msg_builder.doc_url(doc_url);
    }

    msg_builder.build()
}

/// The block for one package: name in bold, then the optional repo and doc
/// links and the optional description.
pub fn prepare_message_text(pkg: &Package) -> (r: String)
    ensures
        r@ == package_block(*pkg),
{
    proof {
        reveal_strlit("");
    }
    let description: &str = match &pkg.description {
        Some(desc) => desc.as_str(),
        None => "",
    };
    let repo_url: &str = match &pkg.repository {
        Some(u) => u.as_str(),
        None => "",
    };
    let doc_url: &str = match &pkg.documentation {
        Some(u) => u.as_str(),
        None => "",
    };
    render_html_message(pkg.name.as_str(), description, repo_url, doc_url)
}

/// The reply text for a list of packages: blocks are appended in order until
/// either `budget` entries have been rendered or appending the next block
/// would make the reply reach `MAX_MESSAGE_LENGTH` bytes; that block and all
/// later ones are discarded whole.
pub open spec fn take_blocks(pkgs: Seq<Package>, budget: int, acc: int) -> Seq<char>
    decreases pkgs.len(),
{
    if pkgs.len() == 0 || budget <= 0 {
        Seq::empty()
    } else {
        let block = package_block(pkgs[0]);
        let bl = vstd::utf8::encode_utf8(block).len() as int;
        if acc + bl >= MAX_MESSAGE_LENGTH as int {
            Seq::empty()
        } else {
            block + take_blocks(pkgs.drop_first(), budget - 1, acc + bl)
        }
    }
}

/// The full reply for a search result list: at most ten entries, fewer when
/// the byte cap cuts the list short.
pub open spec fn packages_message(pkgs: Seq<Package>) -> Seq<char> {
    take_blocks(pkgs, 10, 0)
}

/// Builds the reply for a non-empty search result, enforcing the entry cap
/// and the byte-length cap.
pub fn build_packages_message(packages: &Vec<Package>) -> (r: String)
    ensures
        r@ == packages_message(packages@),
        vstd::utf8::encode_utf8(r@).len() < MAX_MESSAGE_LENGTH as int,
{
    let mut msg = String::new();
    let count: usize = if packages.len() < 10 {
        packages.len()
    } else {
        10
    };
    let mut i: usize = 0;
    proof {
        assert(vstd::utf8::encode_utf8(msg@) =~= Seq::<u8>::empty());
        assert(packages@.skip(0) =~= packages@);
        assert(msg@ + take_blocks(packages@, 10, 0) =~= take_blocks(packages@, 10, 0));
    }
    loop
        invariant
            i <= count,
            count as int == (if packages@.len() < 10 {
                packages@.len() as int
            } else {
                10
            }),
            vstd::utf8::encode_utf8(msg@).len() < MAX_MESSAGE_LENGTH as int,
            take_blocks(packages@, 10, 0) == msg@ + take_blocks(
                packages@.skip(i as int),
                10 - i as int,
                vstd::utf8::encode_utf8(msg@).len() as int,
            ),
        ensures
            vstd::utf8::encode_utf8(msg@).len() < MAX_MESSAGE_LENGTH as int,
            msg@ == take_blocks(packages@, 10, 0),
        decreases count - i,
    {
        if i >= count {
            proof {
                if (count as int) < 10 {
                    assert(packages@.skip(i as int) =~= Seq::<Package>::empty());
                }
                assert(take_blocks(
                    packages@.skip(i as int),
                    10 - i as int,
                    vstd::utf8::encode_utf8(msg@).len() as int,
                ) == Seq::<char>::empty());
                assert(msg@ + Seq::<char>::empty() =~= msg@);
            }
            break ;
        }
        let msg_part = prepare_message_text(&packages[i]);
        let part_len = byte_len(msg_part.as_str());
        let msg_len = byte_len(msg.as_str());
        proof {
            assert(packages@.skip(i as int)[0] == packages@[i as int]);
            assert(packages@.skip(i as int).drop_first() =~= packages@.skip(i + 1));
        }
        if part_len >= MAX_MESSAGE_LENGTH - msg_len {
            proof {
                assert(take_blocks(
                    packages@.skip(i as int),
                    10 - i as int,
                    vstd::utf8::encode_utf8(msg@).len() as int,
                ) == Seq::<char>::empty());
                assert(msg@ + Seq::<char>::empty() =~= msg@);
            }
            break ;
        }
        let ghost old_msg = msg@;
        msg.append(msg_part.as_str());
        proof {
            lemma_encode_utf8_concat(old_msg, msg_part@);
            assert(old_msg + take_blocks(
                packages@.skip(i as int),
                10 - i as int,
                vstd::utf8::encode_utf8(old_msg).len() as int,
            ) =~= msg@ + take_blocks(
                packages@.skip(i + 1),
                10 - (i + 1),
                vstd::utf8::encode_utf8(msg@).len() as int,
            ));
        }
        i = i + 1;
    }
    msg
}

/// The rendered byte length of one package's block.
pub open spec fn block_len(p: Package) -> int {
    vstd::utf8::encode_utf8(package_block(p)).len() as int
}

/// The first `m` blocks, concatenated whole.
pub open spec fn blocks_concat(pkgs: Seq<Package>, m: int) -> Seq<char>
    decreases m,
{
    if m <= 0 {
        Seq::empty()
    } else {
        blocks_concat(pkgs, m - 1) + package_block(pkgs[m - 1])
    }
}

/// The cumulative rendered byte length of the first `m` blocks.
pub open spec fn blocks_len(pkgs: Seq<Package>, m: int) -> int
    decreases m,
{
    if m <= 0 {
        0
    } else {
        blocks_len(pkgs, m - 1) + block_len(pkgs[m - 1])
    }
}

proof fn lemma_blocks_shift(pkgs: Seq<Package>, m: int)
    requires
        pkgs.len() > 0,
        0 <= m,
        m + 1 <= pkgs.len(),
    ensures
        blocks_concat(pkgs, m + 1) == package_block(pkgs[0]) + blocks_concat(
            pkgs.drop_first(),
            m,
        ),
        blocks_len(pkgs, m + 1) == block_len(pkgs[0]) + blocks_len(pkgs.drop_first(), m),
    decreases m,
{
    if m == 0 {
        assert(blocks_concat(pkgs, 1) == blocks_concat(pkgs, 0) + package_block(pkgs[0]));
        assert(blocks_concat(pkgs.drop_first(), 0) == Seq::<char>::empty());
        assert(Seq::<char>::empty() + package_block(pkgs[0]) =~= package_block(pkgs[0]));
        assert(package_block(pkgs[0]) + Seq::<char>::empty() =~= package_block(pkgs[0]));
        assert(blocks_len(pkgs, 1) == blocks_len(pkgs, 0) + block_len(pkgs[0]));
        assert(blocks_len(pkgs.drop_first(), 0) == 0);
    } else {
        lemma_blocks_shift(pkgs, m - 1);
        assert(pkgs.drop_first()[m - 1] == pkgs[m]);
        assert(blocks_concat(pkgs, m + 1) =~= package_block(pkgs[0]) + blocks_concat(
            pkgs.drop_first(),
            m,
        ));
        assert(blocks_len(pkgs, m + 1) == blocks_len(pkgs, m) + block_len(pkgs[m]));
        assert(blocks_len(pkgs.drop_first(), m) == blocks_len(pkgs.drop_first(), m - 1)
            + block_len(pkgs.drop_first()[m - 1]));
    }
}

proof fn lemma_blocks_concat_len(pkgs: Seq<Package>, m: int)
    requires
        0 <= m,
    ensures
        vstd::utf8::encode_utf8(blocks_concat(pkgs, m)).len() == blocks_len(pkgs, m),
    decreases m,
{
    if m > 0 {
        lemma_blocks_concat_len(pkgs, m - 1);
        lemma_encode_utf8_concat(blocks_concat(pkgs, m - 1), package_block(pkgs[m - 1]));
    } else {
        assert(vstd::utf8::encode_utf8(Seq::<char>::empty()) =~= Seq::<u8>::empty());
    }
}

/// `take_blocks` keeps exactly the whole blocks before its stopping point:
/// the entry budget running out, the list ending, or the first block whose
/// addition would reach the byte cap.
proof fn lemma_take_blocks_prefix(pkgs: Seq<Package>, budget: int, acc: int, k: int)
    requires
        0 <= k <= pkgs.len(),
        k <= budget,
        forall|m: int|
            0 <= m < k ==> acc + blocks_len(pkgs, m) + block_len(#[trigger] pkgs[m])
                < MAX_MESSAGE_LENGTH as int,
        k == pkgs.len() || k == budget || acc + blocks_len(pkgs, k) + block_len(pkgs[k])
            >= MAX_MESSAGE_LENGTH as int,
    ensures
        take_blocks(pkgs, budget, acc) == blocks_concat(pkgs, k),
    decreases k,
{
    if k == 0 {
        if pkgs.len() > 0 && budget > 0 {
            assert(acc + blocks_len(pkgs, 0) + block_len(pkgs[0]) >= MAX_MESSAGE_LENGTH as int);
        }
    } else {
        assert(acc + blocks_len(pkgs, 0) + block_len(pkgs[0]) < MAX_MESSAGE_LENGTH as int);
        let rest = pkgs.drop_first();
        let bl0 = block_len(pkgs[0]);
        assert forall|m: int| 0 <= m < k - 1 implies (acc + bl0) + blocks_len(rest, m)
            + block_len(#[trigger] rest[m]) < MAX_MESSAGE_LENGTH as int by {
            lemma_blocks_shift(pkgs, m);
            assert(acc + blocks_len(pkgs, m + 1) + block_len(pkgs[m + 1])
                < MAX_MESSAGE_LENGTH as int);
            assert(rest[m] == pkgs[m + 1]);
        }
        if !(k == pkgs.len() || k == budget) {
            lemma_blocks_shift(pkgs, k - 1);
            assert(rest[k - 1] == pkgs[k]);
            assert((acc + bl0) + blocks_len(rest, k - 1) + block_len(rest[k - 1])
                >= MAX_MESSAGE_LENGTH as int);
        }
        lemma_take_blocks_prefix(rest, budget - 1, acc + bl0, k - 1);
        lemma_blocks_shift(pkgs, k - 1);
        assert(take_blocks(pkgs, budget, acc) == package_block(pkgs[0]) + take_blocks(
            rest,
            budget - 1,
            acc + bl0,
        ));
    }
}

/// Renderer truncation: when the cumulative rendered length, growing block
/// by block, would first reach the byte cap at the block with index `k`, the
/// reply consists of exactly the `k` blocks before it, none of them partial,
/// and stays below the cap.
pub proof fn lemma_renderer_truncation(pkgs: Seq<Package>, k: int)
    requires
        0 <= k < pkgs.len(),
        k < 10,
        forall|m: int|
            0 <= m < k ==> blocks_len(pkgs, m) + block_len(#[trigger] pkgs[m])
                < MAX_MESSAGE_LENGTH as int,
        blocks_len(pkgs, k) + block_len(pkgs[k]) >= MAX_MESSAGE_LENGTH as int,
    ensures
        packages_message(pkgs) == blocks_concat(pkgs, k),
        vstd::utf8::encode_utf8(packages_message(pkgs)).len() < MAX_MESSAGE_LENGTH as int,
{
    lemma_take_blocks_prefix(pkgs, 10, 0, k);
    lemma_blocks_concat_len(pkgs, k);
    if k > 0 {
        assert(blocks_len(pkgs, k - 1) + block_len(pkgs[k - 1]) < MAX_MESSAGE_LENGTH as int);
    }
}

/// Renderer entry cap: with more than ten packages, each small enough that
/// the byte cap is never reached, the reply consists of exactly the first
/// ten blocks.
pub proof fn lemma_renderer_entry_cap(pkgs: Seq<Package>)
    requires
        pkgs.len() >= 10,
        forall|m: int|
            0 <= m < 10 ==> blocks_len(pkgs, m) + block_len(#[trigger] pkgs[m])
                < MAX_MESSAGE_LENGTH as int,
    ensures
        packages_message(pkgs) == blocks_concat(pkgs, 10),
{
    lemma_take_blocks_prefix(pkgs, 10, 0, 10);
}

/// The fixed reply for an empty or failed search.
pub fn no_results_reply() -> (r: String)
    ensures
        r@ == "No results found"@,
        vstd::utf8::encode_utf8(r@).len() < MAX_MESSAGE_LENGTH as int,
{
    proof {
        reveal_strlit("No results found");
        assert(vstd::utf8::is_ascii_chars("No results found"@));
        vstd::utf8::is_ascii_chars_encode_utf8("No results found"@);
    }
    String::from_str("No results found")
}

/// The fixed reply for a command name absent from the registry.
pub fn unrecognized_reply() -> (r: String)
    ensures
        r@ == "Unrecognized command"@,
{
    String::from_str("Unrecognized command")
}

/// The reply sent for the outcome of a search: the rendered package list
/// when the backend succeeded with at least one result, and the fixed
/// fallback for an empty list or a failure of any kind. Every reply stays
/// under the byte cap.
pub fn search_reply(result: &Result<Vec<Package>, Error>) -> (r: String)
    ensures
        result matches Ok(pkgs) ==> (pkgs@.len() > 0 ==> r@ == packages_message(pkgs@)) && (
        pkgs@.len() == 0 ==> r@ == "No results found"@),
        result is Err ==> r@ == "No results found"@,
        vstd::utf8::encode_utf8(r@).len() < MAX_MESSAGE_LENGTH as int,
{
    match result {
        Ok(pkgs) if pkgs.len() > 0 => build_packages_message(pkgs),
        _ => no_results_reply(),
    }
}

/// The first index carrying `name`, if any.
pub open spec fn spec_lookup(names: Seq<Seq<char>>, name: Seq<char>) -> Option<int>
    decreases names.len(),
{
    if names.len() == 0 {
        None
    } else if names[0] == name {
        Some(0int)
    } else {
        match spec_lookup(names.drop_first(), name) {
            Some(i) => Some(i + 1),
            None => None,
        }
    }
}

/// The immutable mapping from command names to handlers, built once at
/// startup. A handler is identified by the slot index returned when its name
/// was registered; the caller keeps the handlers themselves in a parallel
/// table.
pub struct HandlerRegistry {
    names: Vec<String>,
}

impl HandlerRegistry {
    /// The registered command names, in registration order.
    pub closed spec fn spec_names(&self) -> Seq<Seq<char>> {
        self.names.deep_view()
    }

    /// Registry keys are unique.
    pub closed spec fn wf(&self) -> bool {
        forall|i: int, j: int|
            0 <= i < j < self.names.deep_view().len() ==> self.names.deep_view()[i]
                != self.names.deep_view()[j]
    }

    pub fn new() -> (r: HandlerRegistry)
        ensures
            r.wf(),
            r.spec_names() == Seq::<Seq<char>>::empty(),
    {
        let r = HandlerRegistry { names: Vec::new() };
        proof {
            assert(r.names.deep_view() =~= Seq::<Seq<char>>::empty());
        }
        r
    }

    /// The slot registered for `name`, if any.
    pub fn lookup(&self, name: &String) -> (r: Option<usize>)
        ensures
            match spec_lookup(self.spec_names(), name@) {
                Some(i) => r matches Some(u) && u as int == i,
                None => r is None,
            },
    {
        let mut j: usize = 0;
        proof {
            lemma_spec_lookup_bounds(self.spec_names(), name@);
        }
        loop
            invariant
                j <= self.names.len(),
                forall|k: int| 0 <= k < j ==> self.names.deep_view()[k] != name@,
                spec_lookup(self.spec_names(), name@) matches Some(i) ==> i >= j,
            ensures
                match spec_lookup(self.spec_names(), name@) {
                    Some(i) => j as int == i && j < self.names@.len(),
                    None => j == self.names@.len(),
                },
            decreases self.names.len() - j,
        {
            if j >= self.names.len() {
                proof {
                    lemma_spec_lookup_not_found(self.spec_names(), name@);
                }
                break ;
            }
            if self.names[j].eq(name) {
                proof {
                    lemma_spec_lookup_found(self.spec_names(), name@, j as int);
                }
                break ;
            }
            proof {
                lemma_spec_lookup_skip(self.spec_names(), name@, j as int);
            }
            j = j + 1;
        }
        if j < self.names.len() {
            Some(j)
        } else {
            None
        }
    }

    /// Registers `name`, reusing its slot if it is already present; keys
    /// stay unique. The returned index is the handler's slot.
    pub fn register(&mut self, name: String) -> (idx: usize)
        requires
            old(self).wf(),
        ensures
            final(self).wf(),
            match spec_lookup(old(self).spec_names(), name@) {
                Some(i) => idx as int == i && final(self).spec_names() == old(self).spec_names(),
                None => idx as int == old(self).spec_names().len() && final(self).spec_names()
                    == old(self).spec_names().push(name@),
            },
    {
        let r = self.lookup(&name);
        match r {
            Some(i) => i,
            None => {
                let idx = self.names.len();
                let ghost gname = name@;
                proof {
                    lemma_spec_lookup_none_absent(self.spec_names(), name@);
                }
                self.names.push(name);
                proof {
                    assert(self.names.deep_view() =~= old(self).names.deep_view().push(gname));
                }
                idx
            },
        }
    }
}

/// A found index lies within the table.
proof fn lemma_spec_lookup_bounds(names: Seq<Seq<char>>, name: Seq<char>)
    ensures
        spec_lookup(names, name) matches Some(i) ==> 0 <= i < names.len(),
    decreases names.len(),
{
    if names.len() > 0 && names[0] != name {
        lemma_spec_lookup_bounds(names.drop_first(), name);
    }
}

/// If no prefix entry matches, a match found further right keeps its index.
proof fn lemma_spec_lookup_skip(names: Seq<Seq<char>>, name: Seq<char>, j: int)
    requires
        0 <= j < names.len(),
        names[j] != name,
        forall|k: int| 0 <= k < j ==> names[k] != name,
    ensures
        spec_lookup(names, name) matches Some(i) ==> i >= j + 1,
    decreases j,
{
    if j == 0 {
        lemma_spec_lookup_bounds(names.drop_first(), name);
    } else {
        lemma_spec_lookup_skip(names.drop_first(), name, j - 1);
    }
}

/// A name that is not found is carried by no entry.
proof fn lemma_spec_lookup_none_absent(names: Seq<Seq<char>>, name: Seq<char>)
    requires
        spec_lookup(names, name) is None,
    ensures
        forall|k: int| 0 <= k < names.len() ==> names[k] != name,
    decreases names.len(),
{
    if names.len() > 0 {
        lemma_spec_lookup_none_absent(names.drop_first(), name);
        assert forall|k: int| 0 <= k < names.len() implies names[k] != name by {
            if k > 0 {
                assert(names.drop_first()[k - 1] == names[k]);
            }
        }
    }
}

/// A name that no entry carries is not found.
proof fn lemma_spec_lookup_not_found(names: Seq<Seq<char>>, name: Seq<char>)
    requires
        forall|k: int| 0 <= k < names.len() ==> names[k] != name,
    ensures
        spec_lookup(names, name) is None,
    decreases names.len(),
{
    if names.len() > 0 {
        lemma_spec_lookup_not_found(names.drop_first(), name);
    }
}

/// The first match is found at its index.
proof fn lemma_spec_lookup_found(names: Seq<Seq<char>>, name: Seq<char>, j: int)
    requires
        0 <= j < names.len(),
        names[j] == name,
        forall|k: int| 0 <= k < j ==> names[k] != name,
    ensures
        spec_lookup(names, name) == Some(j),
    decreases j,
{
    if j > 0 {
        lemma_spec_lookup_found(names.drop_first(), name, j - 1);
    }
}

/// The terminal state reached for one inbound message: not a command at all
/// (log only), a command with no registered handler (send the fixed reply),
/// or a command dispatched to the handler in the given slot.
pub enum Dispatch {
    NotACommand,
    Unrecognized,
    Invoke(usize, Command),
}

impl HandlerRegistry {
    /// Decides what to do with one inbound message text. The caller performs
    /// the action: nothing, the fixed "Unrecognized command" reply, or the
    /// invocation of the handler in the returned slot.
    pub fn dispatch(&self, text: &str) -> (d: Dispatch)
        ensures
            parse_spec(text@) is None ==> d is NotACommand,
            parse_spec(text@) matches Some(p) ==> match spec_lookup(self.spec_names(), p.0) {
                Some(i) => d matches Dispatch::Invoke(slot, cmd) && slot as int == i && cmd.name@
                    == p.0 && cmd.query@ == p.1,
                None => d is Unrecognized,
            },
    {
        match Command::parse(text) {
            None => Dispatch::NotACommand,
            Some(cmd) => match self.lookup(&cmd.name) {
                Some(slot) => Dispatch::Invoke(slot, cmd),
                None => Dispatch::Unrecognized,
            },
        }
    }
}

} // verus!
