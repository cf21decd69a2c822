//! HTML escaping and markup for reply messages. User-facing text (names,
//! URLs, descriptions) is escaped with the fixed four-character mapping
//! `&` -> `&amp;`, `>` -> `&gt;`, `<` -> `&lt;`, `"` -> `&#34;` before it is
//! placed inside the `<b>`, `<i>` and `<a href="...">` tags of a reply.

use vstd::prelude::*;

verus! {

/// The escape expansion of one character.
pub open spec fn escape_char(c: char) -> Seq<char> {
    if c == '&' {
        "&amp;"@
    } else if c == '>' {
        "&gt;"@
    } else if c == '<' {
        "&lt;"@
    } else if c == '"' {
        "&#34;"@
    } else {
        seq![c]
    }
}

/// The escape expansion of a text: each character replaced by its expansion.
pub open spec fn escape_text(s: Seq<char>) -> Seq<char>
    decreases s.len(),
{
    if s.len() == 0 {
        Seq::empty()
    } else {
        escape_char(s[0]) + escape_text(s.drop_first())
    }
}

pub proof fn lemma_escape_text_push(s: Seq<char>, c: char)
    ensures
        escape_text(s.push(c)) == escape_text(s) + escape_char(c),
    decreases s.len(),
{
    if s.len() == 0 {
        assert(s.push(c)[0] == c);
        assert(s.push(c).drop_first() =~= Seq::<char>::empty());
        assert(escape_text(s.push(c)) == escape_char(c) + escape_text(Seq::<char>::empty()));
        assert(escape_char(c) + Seq::<char>::empty() =~= escape_char(c));
        assert(escape_text(s) + escape_char(c) =~= escape_char(c));
    } else {
        assert(s.push(c)[0] == s[0]);
        assert(s.push(c).drop_first() =~= s.drop_first().push(c));
        lemma_escape_text_push(s.drop_first(), c);
        assert(escape_text(s.push(c)) =~= escape_text(s) + escape_char(c));
    }
}

/// Escapes a text with the fixed four-character mapping.
pub fn html_escape(s: &str) -> (r: String)
    ensures
        r@ == escape_text(s@),
{
    let len = s.unicode_len();
    let mut out = String::new();
    let mut i: usize = 0;
    while i < len
        invariant
            len == s@.len(),
            i <= len,
            out@ == escape_text(s@.take(i as int)),
        decreases len - i,
    {
        let c = s.get_char(i);
        if c == '&' {
            out.append("&amp;");
        } else if c == '>' {
            out.append("&gt;");
        } else if c == '<' {
            out.append("&lt;");
        } else if c == '"' {
            out.append("&#34;");
        } else {
            let piece = s.substring_char(i, i + 1);
            proof {
                assert(s@.subrange(i as int, i + 1) =~= seq![s@[i as int]]);
            }
            out.append(piece);
        }
        proof {
            assert(s@.take(i + 1) =~= s@.take(i as int).push(s@[i as int]));
            lemma_escape_text_push(s@.take(i as int), s@[i as int]);
        }
        i = i + 1;
    }
    proof {
        assert(s@.take(len as int) =~= s@);
    }
    out
}

/// The byte length of a text, as sent on the wire (the reply cap is a byte
/// count, not a character count).
pub fn byte_len(s: &str) -> (n: usize)
    ensures
        n == vstd::utf8::encode_utf8(s@).len(),
{
    s.as_bytes().len()
}

/// UTF-8 encoding distributes over concatenation of texts.
pub proof fn lemma_encode_utf8_concat(a: Seq<char>, b: Seq<char>)
    ensures
        vstd::utf8::encode_utf8(a + b) == vstd::utf8::encode_utf8(a) + vstd::utf8::encode_utf8(b),
    decreases a.len(),
{
    if a.len() == 0 {
        assert(a + b =~= b);
        assert(vstd::utf8::encode_utf8(a) + vstd::utf8::encode_utf8(b) =~= vstd::utf8::encode_utf8(
            b,
        ));
    } else {
        assert((a + b)[0] == a[0]);
        assert((a + b).drop_first() =~= a.drop_first() + b);
        lemma_encode_utf8_concat(a.drop_first(), b);
        assert(vstd::utf8::encode_utf8(a + b) =~= vstd::utf8::encode_utf8(a)
            + vstd::utf8::encode_utf8(b));
    }
}

/// A text in bold markup, contents escaped.
pub open spec fn bold_markup(t: Seq<char>) -> Seq<char> {
    "<b>"@ + escape_text(t) + "</b>"@
}

/// A text in italic markup, contents escaped.
pub open spec fn italic_markup(t: Seq<char>) -> Seq<char> {
    "<i>"@ + escape_text(t) + "</i>"@
}

/// A link with target `u` and label `t`, both escaped.
pub open spec fn link_markup(t: Seq<char>, u: Seq<char>) -> Seq<char> {
    "<a href=\""@ + escape_text(u) + "\">"@ + escape_text(t) + "</a>"@
}

/// A newline passes through the escape mapping unchanged.
pub proof fn lemma_escape_newline()
    ensures
        escape_text("\n"@) == "\n"@,
{
    reveal_strlit("\n");
    assert("\n"@.len() == 1);
    assert("\n"@[0] == '\n');
    assert(escape_char('\n') == seq!['\n']);
    assert("\n"@.drop_first() =~= Seq::<char>::empty());
    assert(escape_text(Seq::<char>::empty()) == Seq::<char>::empty());
    assert(escape_text("\n"@) == escape_char("\n"@[0]) + escape_text("\n"@.drop_first()));
    assert(escape_text("\n"@) =~= "\n"@);
}

/// The escape expansion of one byte of UTF-8 text. Bytes outside the mapping
/// (including UTF-8 continuation bytes) pass through unchanged.
pub open spec fn escape_byte(b: u8) -> Seq<u8> {
    if b == 38 {  // '&' -> "&amp;"
        seq![38u8, 97u8, 109u8, 112u8, 59u8]
    } else if b == 62 {  // '>' -> "&gt;"
        seq![38u8, 103u8, 116u8, 59u8]
    } else if b == 60 {  // '<' -> "&lt;"
        seq![38u8, 108u8, 116u8, 59u8]
    } else if b == 34 {  // '"' -> "&#34;"
        seq![38u8, 35u8, 51u8, 52u8, 59u8]
    } else {
        seq![b]
    }
}

/// The escape expansion of a byte sequence.
pub open spec fn escape_bytes(s: Seq<u8>) -> Seq<u8>
    decreases s.len(),
{
    if s.len() == 0 {
        Seq::empty()
    } else {
        escape_byte(s[0]) + escape_bytes(s.drop_first())
    }
}

/// Each input byte expands to at least one and at most five output bytes.
pub proof fn lemma_escape_bytes_len(s: Seq<u8>)
    ensures
        s.len() <= escape_bytes(s).len() <= 5 * s.len(),
    decreases s.len(),
{
    if s.len() > 0 {
        lemma_escape_bytes_len(s.drop_first());
    }
}

proof fn lemma_escape_char_bytes(c: char)
    requires
        (c as u32) < 128,
    ensures
        vstd::utf8::encode_utf8(escape_char(c)) == escape_byte(c as u8),
{
    broadcast use vstd::utf8::is_ascii_chars_encode_utf8;

    if c == '&' {
        reveal_strlit("&amp;");
        assert(vstd::utf8::is_ascii_chars("&amp;"@));
        assert(vstd::utf8::encode_utf8("&amp;"@) =~= seq![38u8, 97u8, 109u8, 112u8, 59u8]);
    } else if c == '>' {
        reveal_strlit("&gt;");
        assert(vstd::utf8::is_ascii_chars("&gt;"@));
        assert(vstd::utf8::encode_utf8("&gt;"@) =~= seq![38u8, 103u8, 116u8, 59u8]);
    } else if c == '<' {
        reveal_strlit("&lt;");
        assert(vstd::utf8::is_ascii_chars("&lt;"@));
        assert(vstd::utf8::encode_utf8("&lt;"@) =~= seq![38u8, 108u8, 116u8, 59u8]);
    } else if c == '"' {
        reveal_strlit("&#34;");
        assert(vstd::utf8::is_ascii_chars("&#34;"@));
        assert(vstd::utf8::encode_utf8("&#34;"@) =~= seq![38u8, 35u8, 51u8, 52u8, 59u8]);
    } else {
        assert(vstd::utf8::is_ascii_chars(seq![c]));
        assert(vstd::utf8::encode_utf8(seq![c]) =~= seq![c as u8]);
        assert(escape_byte(c as u8) == seq![c as u8]);
    }
}

/// On ASCII text the byte-level and the character-level escapes agree:
/// escaping the UTF-8 encoding is encoding the escaped text.
pub proof fn lemma_escape_agreement(s: Seq<char>)
    requires
        vstd::utf8::is_ascii_chars(s),
    ensures
        escape_bytes(vstd::utf8::encode_utf8(s)) == vstd::utf8::encode_utf8(escape_text(s)),
    decreases s.len(),
{
    broadcast use vstd::utf8::is_ascii_chars_encode_utf8;

    if s.len() == 0 {
        assert(vstd::utf8::encode_utf8(s) =~= Seq::<u8>::empty());
        assert(escape_bytes(Seq::<u8>::empty()) =~= Seq::<u8>::empty());
        assert(escape_text(s) =~= Seq::<char>::empty());
    } else {
        let c = s[0];
        let rest = s.drop_first();
        assert(vstd::utf8::is_ascii_chars(rest));
        lemma_escape_agreement(rest);

        let es = vstd::utf8::encode_scalar(c as u32);
        assert(vstd::utf8::encode_utf8(s) == es + vstd::utf8::encode_utf8(rest));
        assert(vstd::utf8::encode_utf8(s).len() == s.len());
        assert(vstd::utf8::encode_utf8(rest).len() == rest.len());
        assert(es.len() == 1);
        assert(vstd::utf8::encode_utf8(s)[0] == c as u8);
        assert(es[0] == c as u8);
        assert(es =~= seq![c as u8]);

        assert(vstd::utf8::encode_utf8(s)[0] == c as u8);
        assert(vstd::utf8::encode_utf8(s).drop_first() =~= vstd::utf8::encode_utf8(rest));
        assert(escape_bytes(vstd::utf8::encode_utf8(s)) == escape_byte(c as u8) + escape_bytes(
            vstd::utf8::encode_utf8(rest),
        ));

        lemma_escape_char_bytes(c);
        lemma_encode_utf8_concat(escape_char(c), escape_text(rest));
        assert(escape_text(s) == escape_char(c) + escape_text(rest));
    }
}

/// Streams the escape expansion of a byte sequence, one byte per call.
pub struct Escape {
    input: Vec<u8>,
    pos: usize,
    pending: Vec<u8>,
}

impl Escape {
    pub closed spec fn wf(&self) -> bool {
        self.pos <= self.input@.len()
    }

    /// The output bytes not yet handed out.
    pub closed spec fn remaining(&self) -> Seq<u8> {
        self.pending@ + escape_bytes(self.input@.skip(self.pos as int))
    }

    pub fn new(input: Vec<u8>) -> (e: Escape)
        ensures
            e.wf(),
            e.remaining() == escape_bytes(input@),
    {
        let e = Escape { input, pos: 0, pending: Vec::new() };
        proof {
            assert(e.input@.skip(0) =~= e.input@);
            assert(e.remaining() =~= escape_bytes(e.input@));
        }
        e
    }

    /// The next output byte, or `None` once the expansion is exhausted.
    pub fn next(&mut self) -> (r: Option<u8>)
        requires
            old(self).wf(),
        ensures
            final(self).wf(),
            old(self).remaining().len() > 0 ==> r == Some(old(self).remaining()[0])
                && final(self).remaining() == old(self).remaining().drop_first(),
            old(self).remaining().len() == 0 ==> r is None
                && final(self).remaining() == old(self).remaining(),
    {
        if self.pending.len() > 0 {
            let b = self.pending.remove(0);
            proof {
                assert(self.pending@ =~= old(self).pending@.drop_first());
                assert(old(self).remaining()[0] == old(self).pending@[0]);
                assert(self.remaining() =~= old(self).remaining().drop_first());
            }
            Some(b)
        } else if self.pos < self.input.len() {
            let ch = self.input[self.pos];
            proof {
                let rest = old(self).input@.skip(old(self).pos as int);
                assert(rest.len() > 0);
                assert(rest[0] == old(self).input@[old(self).pos as int]);
                assert(rest.drop_first() =~= old(self).input@.skip(old(self).pos + 1));
                assert(old(self).remaining() =~= escape_byte(ch) + escape_bytes(
                    old(self).input@.skip(old(self).pos + 1),
                ));
            }
            self.pos = self.pos + 1;
            let expanded: bool = ch == 38 || ch == 62 || ch == 60 || ch == 34;
            if expanded {
                let mut p: Vec<u8> = Vec::new();
                if ch == 38 {
                    p.push(97);
                    p.push(109);
                    p.push(112);
                } else if ch == 62 {
                    p.push(103);
                    p.push(116);
                } else if ch == 60 {
                    p.push(108);
                    p.push(116);
                } else {
                    p.push(35);
                    p.push(51);
                    p.push(52);
                }
                p.push(59);
                proof {
                    assert(p@ =~= escape_byte(ch).drop_first());
                }
                self.pending = p;
                proof {
                    assert(self.remaining() =~= old(self).remaining().drop_first());
                }
                Some(38)
            } else {
                proof {
                    assert(escape_byte(ch) =~= seq![ch]);
                    assert(self.remaining() =~= old(self).remaining().drop_first());
                }
                Some(ch)
            }
        } else {
            proof {
                assert(self.input@.skip(self.pos as int) =~= Seq::<u8>::empty());
                assert(self.remaining() =~= Seq::<u8>::empty());
            }
            None
        }
    }

    /// Bounds on how many output bytes are still to come.
    pub fn size_hint(&self) -> (r: (usize, Option<usize>))
        requires
            self.wf(),
        ensures
            r.0 <= self.remaining().len(),
            r.1 matches Some(u) ==> self.remaining().len() <= u,
    {
        let rest = self.input.len() - self.pos;
        proof {
            lemma_escape_bytes_len(self.input@.skip(self.pos as int));
        }
        let upper = match rest.checked_mul(5) {
            Some(m) => m.checked_add(self.pending.len()),
            None => None,
        };
        (rest, upper)
    }
}

/// Accumulates escaped text and markup for one reply message.
pub struct Html {
    msg: String,
}

impl View for Html {
    type V = Seq<char>;

    closed spec fn view(&self) -> Seq<char> {
        self.msg@
    }
}

impl Html {
    pub fn new() -> (h: Html)
        ensures
            h@ == Seq::<char>::empty(),
    {
        Html { msg: String::new() }
    }

    /// Appends the text, escaped.
    pub fn text(&mut self, t: &str)
        ensures
            final(self)@ == old(self)@ + escape_text(t@),
    {
        let esc = html_escape(t);
        self.msg.append(esc.as_str());
    }

    /// Appends the text in bold, escaped.
    pub fn bold(&mut self, t: &str)
        ensures
            final(self)@ == old(self)@ + bold_markup(t@),
    {
        let esc = html_escape(t);
        self.msg.append("<b>");
        self.msg.append(esc.as_str());
        self.msg.append("</b>");
        proof {
            assert(self.msg@ =~= old(self).msg@ + bold_markup(t@));
        }
    }

    /// Appends the text in italics, escaped.
    pub fn italic(&mut self, t: &str)
        ensures
            final(self)@ == old(self)@ + italic_markup(t@),
    {
        let esc = html_escape(t);
        self.msg.append("<i>");
        self.msg.append(esc.as_str());
        self.msg.append("</i>");
        proof {
            assert(self.msg@ =~= old(self).msg@ + italic_markup(t@));
        }
    }

    /// Appends a link with target `u` and label `t`, both escaped.
    pub fn url(&mut self, t: &str, u: &str)
        ensures
            final(self)@ == old(self)@ + link_markup(t@, u@),
    {
        let escu = html_escape(u);
        let esct = html_escape(t);
        self.msg.append("<a href=\"");
        self.msg.append(escu.as_str());
        self.msg.append("\">");
        self.msg.append(esct.as_str());
        self.msg.append("</a>");
        proof {
            assert(self.msg@ =~= old(self).msg@ + link_markup(t@, u@));
        }
    }

    /// The message accumulated so far.
    pub fn message(&self) -> (r: &str)
        ensures
            r@ == self@,
    {
        self.msg.as_str()
    }
}

/// The block rendered for one package: the four optional parts in order,
/// with a blank separating line after the links.
pub open spec fn builder_message(
    name: Option<Seq<char>>,
    repo: Option<Seq<char>>,
    doc: Option<Seq<char>>,
    desc: Option<Seq<char>>,
) -> Seq<char> {
    (match name {
        Some(n) => bold_markup(n) + "\n"@,
        None => Seq::<char>::empty(),
    }) + (match repo {
        Some(u) => link_markup("[repo]"@, u),
        None => Seq::<char>::empty(),
    }) + (match doc {
        Some(u) => link_markup("[doc]"@, u),
        None => Seq::<char>::empty(),
    }) + "\n"@ + (match desc {
        Some(d) => escape_text(d) + "\n"@,
        None => Seq::<char>::empty(),
    })
}

/// Collects the parts of one package's block: name in bold, optional repo
/// and doc links, optional description.
pub struct HtmlMessageBuilder<'a> {
    name: Option<&'a str>,
    repo_url: Option<&'a str>,
    doc_url: Option<&'a str>,
    description: Option<&'a str>,
}

impl<'a> HtmlMessageBuilder<'a> {
    pub closed spec fn spec_name(&self) -> Option<Seq<char>> {
        self.name.deep_view()
    }

    pub closed spec fn spec_repo_url(&self) -> Option<Seq<char>> {
        self.repo_url.deep_view()
    }

    pub closed spec fn spec_doc_url(&self) -> Option<Seq<char>> {
        self.doc_url.deep_view()
    }

    pub closed spec fn spec_description(&self) -> Option<Seq<char>> {
        self.description.deep_view()
    }

    pub fn new() -> (b: HtmlMessageBuilder<'a>)
        ensures
            b.spec_name() is None,
            b.spec_repo_url() is None,
            b.spec_doc_url() is None,
            b.spec_description() is None,
    {
        HtmlMessageBuilder { name: None, repo_url: None, doc_url: None, description: None }
    }

    pub fn name(&mut self, n: &'a str)
        ensures
            final(self).spec_name() == Some(n@),
            final(self).spec_repo_url() == old(self).spec_repo_url(),
            final(self).spec_doc_url() == old(self).spec_doc_url(),
            final(self).spec_description() == old(self).spec_description(),
    {
        self.name = Some(n);
    }

    pub fn repo_url(&mut self, u: &'a str)
        ensures
            final(self).spec_repo_url() == Some(u@),
            final(self).spec_name() == old(self).spec_name(),
            final(self).spec_doc_url() == old(self).spec_doc_url(),
            final(self).spec_description() == old(self).spec_description(),
    {
        self.repo_url = Some(u);
    }

    pub fn doc_url(&mut self, u: &'a str)
        ensures
            final(self).spec_doc_url() == Some(u@),
            final(self).spec_name() == old(self).spec_name(),
            final(self).spec_repo_url() == old(self).spec_repo_url(),
            final(self).spec_description() == old(self).spec_description(),
    {
        self.doc_url = Some(u);
    }

    pub fn description(&mut self, d: &'a str)
        ensures
            final(self).spec_description() == Some(d@),
            final(self).spec_name() == old(self).spec_name(),
            final(self).spec_repo_url() == old(self).spec_repo_url(),
            final(self).spec_doc_url() == old(self).spec_doc_url(),
    {
        self.description = Some(d);
    }

    /// Renders the collected parts as one block.
    pub fn build(&self) -> (r: String)
        ensures
            r@ == builder_message(
                self.spec_name(),
                self.spec_repo_url(),
                self.spec_doc_url(),
                self.spec_description(),
            ),
    {
        let mut html = Html::new();

        if let Some(name) = self.name {
            html.bold(name);
            html.text("\n");
        }

        if let Some(repo_url) = self.repo_url {
            html.url("[repo]", repo_url);
        }

        if let Some(doc_url) = self.doc_url {
            html.url("[doc]", doc_url);
        }

        html.text("\n");

        if let Some(description) = self.description {
            html.text(description);
            html.text("\n");
        }

        let r = String::from_str(html.message());
        proof {
            lemma_escape_newline();
            assert(r@ =~= builder_message(
                self.spec_name(),
                self.spec_repo_url(),
                self.spec_doc_url(),
                self.spec_description(),
            ));
        }
        r
    }
}

} // verus!
