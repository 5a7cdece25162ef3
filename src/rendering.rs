//! HTML pages: error and confirmation pages, and directory listings.
use vstd::prelude::*;
use crate::http_core::{HttpStatus, status_code, status_text, status_to_code, status_to_message};
use crate::text::{dec, has_prefix, has_suffix, ends_with, lit, lit_vec, push_bytes, push_dec, push_lit};

verus! {

pub enum HtmlStyle {
    /// `<element ...> ... </element>`
    CanHaveChildren,
    /// `<element ...>`
    NoChildren,
}

/// An element under construction. Children are kept already rendered, in
/// the order they were added.
pub struct HtmlElement {
    pub tag: Vec<u8>,
    pub attributes: Vec<(Vec<u8>, Vec<u8>)>,
    pub classes: Vec<Vec<u8>>,
    pub can_have_children: bool,
    pub children: Vec<u8>,
    pub text: Option<Vec<u8>>,
}

/// ` key='value'` for each attribute.
pub open spec fn attributes_text(a: Seq<(Vec<u8>, Vec<u8>)>) -> Seq<u8>
    decreases a.len(),
{
    if a.len() == 0 {
        seq![]
    } else {
        attributes_text(a.drop_last()) + seq![32u8] + a.last().0@ + seq![61u8, 39u8] + a.last().1@
            + seq![39u8]
    }
}

/// ` c` for each class.
pub open spec fn class_list(c: Seq<Vec<u8>>) -> Seq<u8>
    decreases c.len(),
{
    if c.len() == 0 {
        seq![]
    } else {
        class_list(c.drop_last()) + seq![32u8] + c.last()@
    }
}

pub open spec fn classes_text(c: Seq<Vec<u8>>) -> Seq<u8> {
    if c.len() == 0 {
        seq![]
    } else {
        lit(" class='"@) + class_list(c) + seq![39u8]
    }
}

/// The markup of an element: its opening tag, and for an element that can
/// have children its text, its children and its closing tag.
pub open spec fn element_text(e: HtmlElement) -> Seq<u8> {
    let open = seq![60u8] + e.tag@ + attributes_text(e.attributes@) + classes_text(e.classes@)
        + seq![62u8];
    if e.can_have_children {
        open + match e.text {
            Some(t) => t@,
            None => seq![],
        } + e.children@ + seq![60u8, 47u8] + e.tag@ + seq![62u8]
    } else {
        open
    }
}

impl HtmlElement {
    pub fn new(tag: &str, can_have_children: HtmlStyle) -> (r: HtmlElement)
        requires
            vstd::string::is_ascii(tag),
        ensures
            r.tag@ == lit(tag@),
            r.attributes@.len() == 0,
            r.classes@.len() == 0,
            r.can_have_children == (can_have_children is CanHaveChildren),
            r.children@.len() == 0,
            r.text is None,
    {
        HtmlElement {
            tag: lit_vec(tag),
            attributes: Vec::new(),
            classes: Vec::new(),
            can_have_children: match can_have_children {
                HtmlStyle::CanHaveChildren => true,
                HtmlStyle::NoChildren => false,
            },
            children: Vec::new(),
            text: None,
        }
    }

    pub fn add_text(&mut self, text: Vec<u8>)
        ensures
            final(self).text == Some(text),
            final(self).tag == old(self).tag,
            final(self).attributes == old(self).attributes,
            final(self).classes == old(self).classes,
            final(self).can_have_children == old(self).can_have_children,
            final(self).children == old(self).children,
    {
        self.text = Some(text);
    }

    /// Appends a child; an element that cannot have children ignores it.
    pub fn add_child(&mut self, child: &HtmlElement)
        ensures
            old(self).can_have_children ==> final(self).children@ == old(self).children@
                + element_text(*child),
            !old(self).can_have_children ==> final(self).children@ == old(self).children@,
            final(self).text == old(self).text,
            final(self).tag == old(self).tag,
            final(self).attributes == old(self).attributes,
            final(self).classes == old(self).classes,
            final(self).can_have_children == old(self).can_have_children,
    {
        if self.can_have_children {
            let r = child.render();
            push_bytes(&mut self.children, r.as_slice());
        }
    }

    pub fn add_attribute(&mut self, key: Vec<u8>, value: Vec<u8>)
        ensures
            final(self).attributes@ == old(self).attributes@.push((key, value)),
            final(self).text == old(self).text,
            final(self).tag == old(self).tag,
            final(self).classes == old(self).classes,
            final(self).can_have_children == old(self).can_have_children,
            final(self).children == old(self).children,
    {
        self.attributes.push((key, value));
    }

    pub fn add_class(&mut self, class: &str)
        requires
            vstd::string::is_ascii(class),
        ensures
            final(self).classes@.len() == old(self).classes@.len() + 1,
            final(self).classes@.drop_last() == old(self).classes@,
            final(self).classes@.last()@ == lit(class@),
            final(self).text == old(self).text,
            final(self).tag == old(self).tag,
            final(self).attributes == old(self).attributes,
            final(self).can_have_children == old(self).can_have_children,
            final(self).children == old(self).children,
    {
        let c = lit_vec(class);
        self.classes.push(c);
        proof {
            assert(self.classes@.drop_last() =~= old(self).classes@);
        }
    }

    pub fn render(&self) -> (r: Vec<u8>)
        ensures
            r@ == element_text(*self),
    {
        let mut out: Vec<u8> = Vec::new();
        out.push(60u8);
        push_bytes(&mut out, self.tag.as_slice());
        let ghost after_tag = out@;
        let mut i: usize = 0;
        while i < self.attributes.len()
            invariant
                i <= self.attributes@.len(),
                out@ == after_tag + attributes_text(self.attributes@.subrange(0, i as int)),
            decreases self.attributes@.len() - i,
        {
            out.push(32u8);
            push_bytes(&mut out, self.attributes[i].0.as_slice());
            out.push(61u8);
            out.push(39u8);
            push_bytes(&mut out, self.attributes[i].1.as_slice());
            out.push(39u8);
            proof {
                let a = self.attributes@;
                assert(a.subrange(0, i + 1).drop_last() =~= a.subrange(0, i as int));
                assert(a.subrange(0, i + 1).last() == a[i as int]);
                assert(out@ =~= after_tag + attributes_text(a.subrange(0, i + 1)));
            }
            i = i + 1;
        }
        proof {
            assert(self.attributes@.subrange(0, self.attributes@.len() as int) =~= self.attributes@);
        }
        let ghost after_attrs = out@;
        if self.classes.len() > 0 {
            proof {
                reveal_strlit(" class='");
            }
            push_lit(&mut out, " class='");
            let ghost after_open = out@;
            let mut j: usize = 0;
            while j < self.classes.len()
                invariant
                    j <= self.classes@.len(),
                    out@ == after_open + class_list(self.classes@.subrange(0, j as int)),
                decreases self.classes@.len() - j,
            {
                out.push(32u8);
                push_bytes(&mut out, self.classes[j].as_slice());
                proof {
                    let c = self.classes@;
                    assert(c.subrange(0, j + 1).drop_last() =~= c.subrange(0, j as int));
                    assert(c.subrange(0, j + 1).last() == c[j as int]);
                    assert(out@ =~= after_open + class_list(c.subrange(0, j + 1)));
                }
                j = j + 1;
            }
            out.push(39u8);
            proof {
                assert(self.classes@.subrange(0, self.classes@.len() as int) =~= self.classes@);
                assert(out@ =~= after_attrs + classes_text(self.classes@));
            }
        } else {
            proof {
                assert(out@ =~= after_attrs + classes_text(self.classes@));
            }
        }
        out.push(62u8);
        if self.can_have_children {
            match &self.text {
                Some(t) => push_bytes(&mut out, t.as_slice()),
                None => {},
            }
            push_bytes(&mut out, self.children.as_slice());
            out.push(60u8);
            out.push(47u8);
            push_bytes(&mut out, self.tag.as_slice());
            out.push(62u8);
        }
        proof {
            assert(out@ =~= element_text(*self));
        }
        out
    }
}

/// `/<relative_path>/<fname>`, without doubling a `/` that ends the path.
pub open spec fn href_text(relative_path: Seq<u8>, fname: Seq<u8>) -> Seq<u8> {
    if has_suffix(relative_path, seq![47u8]) || relative_path.len() == 0 {
        seq![47u8] + relative_path + fname
    } else {
        seq![47u8] + relative_path + seq![47u8] + fname
    }
}

/// The link to an entry of a listed directory.
pub fn generate_href(relative_path: &[u8], fname: &[u8]) -> (r: Vec<u8>)
    ensures
        r@ == href_text(relative_path@, fname@),
{
    let slash: Vec<u8> = vec![47u8];
    let mut out: Vec<u8> = vec![47u8];
    push_bytes(&mut out, relative_path);
    proof {
        assert(slash@ =~= seq![47u8]);
    }
    if !ends_with(relative_path, slash.as_slice()) && relative_path.len() > 0 {
        out.push(47u8);
    }
    push_bytes(&mut out, fname);
    proof {
        assert(out@ =~= href_text(relative_path@, fname@));
    }
    out
}

/// The page head shared by every page.
pub open spec fn page_head() -> Seq<u8> {
    lit("<html><head><link rel='shortcut icon' href='data:image/x-icon;,' type='image/x-icon'></head><body>"@)
}

pub open spec fn page_footer() -> Seq<u8> {
    lit("<footer><hr><pre>Rendered with hypershare revision 0.2.1.</pre></footer>"@)
}

/// An error or confirmation page: the status as a heading, then the
/// message, if any, preformatted.
pub open spec fn error_page(status: HttpStatus, msg: Option<Seq<u8>>) -> Seq<u8> {
    page_head() + lit("<h1>"@) + dec(status_code(status) as nat) + seq![32u8] + lit(
        status_text(status),
    ) + lit("</h1><hr>"@) + match msg {
        Some(m) => lit("<pre class=' error'>"@) + m + lit("</pre>"@),
        None => seq![],
    } + page_footer() + lit("</body></html>"@)
}

fn push_page_head(out: &mut Vec<u8>)
    ensures
        final(out)@ == old(out)@ + page_head(),
{
    proof {
        reveal_strlit("<html><head><link rel='shortcut icon' href='data:image/x-icon;,' type='image/x-icon'></head><body>");
    }
    push_lit(out, "<html><head><link rel='shortcut icon' href='data:image/x-icon;,' type='image/x-icon'></head><body>");
}

fn push_footer(out: &mut Vec<u8>)
    ensures
        final(out)@ == old(out)@ + page_footer(),
{
    proof {
        reveal_strlit("<footer><hr><pre>Rendered with hypershare revision 0.2.1.</pre></footer>");
    }
    push_lit(out, "<footer><hr><pre>Rendered with hypershare revision 0.2.1.</pre></footer>");
}

/// The page sent with a one-off response.
pub fn render_error(status: &HttpStatus, msg: Option<Vec<u8>>) -> (r: Vec<u8>)
    ensures
        r@ == error_page(
            *status,
            match msg {
                Some(m) => Some(m@),
                None => None,
            },
        ),
{
    let mut out: Vec<u8> = Vec::new();
    push_page_head(&mut out);
    proof {
        reveal_strlit("<h1>");
        reveal_strlit("</h1><hr>");
        reveal_strlit("<pre class=' error'>");
        reveal_strlit("</pre>");
        reveal_strlit("</body></html>");
    }
    push_lit(&mut out, "<h1>");
    push_dec(&mut out, status_to_code(status) as usize);
    out.push(32u8);
    push_lit(&mut out, status_to_message(status));
    push_lit(&mut out, "</h1><hr>");
    let ghost mid = out@;
    match &msg {
        Some(m) => {
            push_lit(&mut out, "<pre class=' error'>");
            push_bytes(&mut out, m.as_slice());
            push_lit(&mut out, "</pre>");
        },
        None => {},
    }
    push_footer(&mut out);
    push_lit(&mut out, "</body></html>");
    proof {
        assert(out@ =~= error_page(
            *status,
            match msg {
                Some(m) => Some(m@),
                None => None,
            },
        ));
    }
    out
}

/// One entry of a listed directory, as read from the file system.
pub struct DirEntryInfo {
    pub name: Vec<u8>,
    pub is_dir: bool,
    pub is_file: bool,
    pub len: u64,
    /// For a checksum file (`<name>.md5sum` of at most 34 bytes), its
    /// contents; such files are shown beside the file they check.
    pub sum: Option<Vec<u8>>,
}

fn el(tag: &str, children: bool) -> (r: HtmlElement)
    requires
        vstd::string::is_ascii(tag),
    ensures
        r.tag@ == lit(tag@),
        r.attributes@.len() == 0,
        r.classes@.len() == 0,
        r.can_have_children == children,
        r.children@.len() == 0,
        r.text is None,
{
    HtmlElement::new(
        tag,
        if children {
            HtmlStyle::CanHaveChildren
        } else {
            HtmlStyle::NoChildren
        },
    )
}

fn attr(e: &mut HtmlElement, k: &str, v: Vec<u8>)
    requires
        vstd::string::is_ascii(k),
    ensures
        final(e).attributes@.len() == old(e).attributes@.len() + 1,
        final(e).text == old(e).text,
        final(e).tag == old(e).tag,
        final(e).classes == old(e).classes,
        final(e).can_have_children == old(e).can_have_children,
        final(e).children == old(e).children,
{
    e.add_attribute(lit_vec(k), v);
}

fn push_u64(out: &mut Vec<u8>, n: u64)
    ensures
        final(out)@ == old(out)@ + dec(n as nat),
    decreases n,
{
    if n < 10 {
        out.push(48u8 + n as u8);
        proof {
            assert(final(out)@ =~= old(out)@ + dec(n as nat));
        }
    } else {
        push_u64(out, n / 10);
        out.push(48u8 + (n % 10) as u8);
        proof {
            assert(final(out)@ =~= old(out)@ + dec(n as nat));
        }
    }
}

/// The checksum shown beside `name`: the contents of `<name>.md5sum`.
fn find_sum<'a>(entries: &'a Vec<DirEntryInfo>, name: &[u8]) -> (r: Option<&'a Vec<u8>>)
    ensures
        r matches Some(v) ==> exists|i: int|
            0 <= i < entries@.len() && entries@[i].name@ == name@ + lit(".md5sum"@)
                && entries@[i].sum == Some(*v),
{
    proof {
        reveal_strlit(".md5sum");
    }
    let mut want: Vec<u8> = crate::text::to_vec(name);
    push_lit(&mut want, ".md5sum");
    let mut i: usize = 0;
    while i < entries.len()
        invariant
            want@ == name@ + lit(".md5sum"@),
        decreases entries@.len() - i,
    {
        if crate::text::bytes_eq(entries[i].name.as_slice(), want.as_slice()) {
            match &entries[i].sum {
                Some(s) => {
                    assert(entries@[i as int].sum == Some(*s));
                    return Some(s);
                },
                None => {},
            }
        }
        i = i + 1;
    }
    None
}

/// The table of a listing: one row per entry but checksum files, with its
/// kind, a link, its size and its checksum.
pub fn generate_dir_table(relative_path: &[u8], entries: &Vec<DirEntryInfo>) -> (r: HtmlElement)
    ensures
        r.tag@ == lit("table"@),
        r.can_have_children,
{
    proof {
        reveal_strlit("html");
        reveal_strlit("head");
        reveal_strlit("style");
        reveal_strlit("body");
        reveal_strlit("h1");
        reveal_strlit("link");
        reveal_strlit("rel");
        reveal_strlit("shortcut icon");
        reveal_strlit("href");
        reveal_strlit("data:image/x-icon;,");
        reveal_strlit("type");
        reveal_strlit("image/x-icon");
        reveal_strlit("Directory listing for /");
        reveal_strlit("hr");
        reveal_strlit("a");
        reveal_strlit("..");
        reveal_strlit("i");
        reveal_strlit("Up a directory");
        reveal_strlit("br");
        reveal_strlit("table");
        reveal_strlit("tr");
        reveal_strlit("td");
        reveal_strlit("pre");
        reveal_strlit("[DIR]");
        reveal_strlit("[FILE]");
        reveal_strlit("display: block; text-align: center;");
        reveal_strlit("display: block; text-align: right;");
        reveal_strlit("MD5: ");
        reveal_strlit("form");
        reveal_strlit("method");
        reveal_strlit("post");
        reveal_strlit("enctype");
        reveal_strlit("multipart/form-data");
        reveal_strlit("input");
        reveal_strlit("file");
        reveal_strlit("name");
        reveal_strlit("data");
        reveal_strlit("submit");
        reveal_strlit("p");
        reveal_strlit("Error reading directory");
        reveal_strlit("footer");
        reveal_strlit("Rendered with hypershare revision 0.2.1.");
        reveal_strlit("\n    tr { font-family: monospace; }\n    ");
        reveal_strlit(".md5sum");
    }
    let mut table = el("table", true);
    let mut i: usize = 0;
    while i < entries.len()
        invariant
            table.tag@ == lit("table"@),
            table.can_have_children,
        decreases entries@.len() - i,
    {
    proof {
            reveal_strlit("html");
            reveal_strlit("head");
            reveal_strlit("style");
            reveal_strlit("body");
            reveal_strlit("h1");
            reveal_strlit("link");
            reveal_strlit("rel");
            reveal_strlit("shortcut icon");
            reveal_strlit("href");
            reveal_strlit("data:image/x-icon;,");
            reveal_strlit("type");
            reveal_strlit("image/x-icon");
            reveal_strlit("Directory listing for /");
            reveal_strlit("hr");
            reveal_strlit("a");
            reveal_strlit("..");
            reveal_strlit("i");
            reveal_strlit("Up a directory");
            reveal_strlit("br");
            reveal_strlit("table");
            reveal_strlit("tr");
            reveal_strlit("td");
            reveal_strlit("pre");
            reveal_strlit("[DIR]");
            reveal_strlit("[FILE]");
            reveal_strlit("display: block; text-align: center;");
            reveal_strlit("display: block; text-align: right;");
            reveal_strlit("MD5: ");
            reveal_strlit("form");
            reveal_strlit("method");
            reveal_strlit("post");
            reveal_strlit("enctype");
            reveal_strlit("multipart/form-data");
            reveal_strlit("input");
            reveal_strlit("file");
            reveal_strlit("name");
            reveal_strlit("data");
            reveal_strlit("submit");
            reveal_strlit("p");
            reveal_strlit("Error reading directory");
            reveal_strlit("footer");
            reveal_strlit("Rendered with hypershare revision 0.2.1.");
            reveal_strlit("\n    tr { font-family: monospace; }\n    ");
            reveal_strlit(".md5sum");
        }
        let entry = &entries[i];
        if entry.sum.is_none() {
            let mut tr = el("tr", true);
            let mut td_type = el("td", true);
            let mut td_a = el("td", true);
            let mut td_size = el("td", true);
            let mut td_hash = el("td", true);

            let mut pre_type = el("pre", true);
            pre_type.add_text(if entry.is_dir {
                lit_vec("[DIR]")
            } else {
                lit_vec("[FILE]")
            });
            attr(&mut pre_type, "style", lit_vec("display: block; text-align: center;"));
            td_type.add_child(&pre_type);

            let mut a = el("a", true);
            attr(&mut a, "href", generate_href(relative_path, entry.name.as_slice()));
            a.add_text(crate::text::to_vec(entry.name.as_slice()));
            td_a.add_child(&a);

            let mut pre_size = el("pre", true);
            if entry.is_file {
                let mut size: Vec<u8> = Vec::new();
                push_u64(&mut size, entry.len);
                pre_size.add_text(size);
            }
            attr(&mut pre_size, "style", lit_vec("display: block; text-align: right;"));
            td_size.add_child(&pre_size);

            match find_sum(entries, entry.name.as_slice()) {
                Some(data) => {
                    let mut pre = el("pre", true);
                    let mut t = lit_vec("MD5: ");
                    push_bytes(&mut t, data.as_slice());
                    pre.add_text(t);
                    td_hash.add_child(&pre);
                },
                None => {},
            }
            tr.add_child(&td_type);
            tr.add_child(&td_a);
            tr.add_child(&td_size);
            tr.add_child(&td_hash);
            table.add_child(&tr);
        }
        i = i + 1;
    }
    table
}

proof fn lemma_prefix_append(a: Seq<u8>, x: Seq<u8>, p: Seq<u8>)
    requires
        has_prefix(a, p),
    ensures
        has_prefix(a + x, p),
{
    assert((a + x).subrange(0, p.len() as int) =~= a.subrange(0, p.len() as int));
}

/// `t` occurs in `s` at `i`.
pub open spec fn occurs_at(s: Seq<u8>, t: Seq<u8>, i: int) -> bool {
    0 <= i && i + t.len() <= s.len() && s.subrange(i, i + t.len()) == t
}

proof fn lemma_prefix_trans(a: Seq<u8>, b: Seq<u8>, c: Seq<u8>)
    requires
        has_prefix(a, b),
        has_prefix(b, c),
    ensures
        has_prefix(a, c),
{
    assert(a.subrange(0, c.len() as int) =~= b.subrange(0, c.len() as int));
}

/// The heading of a directory listing.
pub open spec fn listing_title(relative_path: Seq<u8>) -> Seq<u8> {
    lit("<h1>Directory listing for /"@) + relative_path + lit("</h1>"@)
}

/// A directory listing page. `entries` is `None` when the directory could
/// not be read; `show_form` adds the upload form.
/// The `<head>` of a listing page.
fn listing_head() -> (r: HtmlElement)
    ensures
        r.tag@ == lit("head"@),
        r.can_have_children,
{
    proof {
        reveal_strlit("head");
        reveal_strlit("style");
        reveal_strlit("link");
        reveal_strlit("rel");
        reveal_strlit("href");
        reveal_strlit("type");
        reveal_strlit("\n    tr { font-family: monospace; }\n    ");
        reveal_strlit("shortcut icon");
        reveal_strlit("data:image/x-icon;,");
        reveal_strlit("image/x-icon");
    }
    let mut head = el("head", true);
    let mut style = el("style", true);
    style.add_text(lit_vec("\n    tr { font-family: monospace; }\n    "));
    head.add_child(&style);
    let mut link_favi = el("link", false);
    attr(&mut link_favi, "rel", lit_vec("shortcut icon"));
    attr(&mut link_favi, "href", lit_vec("data:image/x-icon;,"));
    attr(&mut link_favi, "type", lit_vec("image/x-icon"));
    head.add_child(&link_favi);
    head
}

/// The parts of a listing after its heading: the link up, the table or
/// the read error, the upload form.
fn listing_rest(body: &mut HtmlElement, relative_path: &[u8], entries: Option<&Vec<DirEntryInfo>>, show_form: bool)
    ensures
        has_prefix(final(body).children@, old(body).children@),
        final(body).text == old(body).text,
        final(body).tag == old(body).tag,
        final(body).attributes == old(body).attributes,
        final(body).classes == old(body).classes,
        final(body).can_have_children == old(body).can_have_children,
{
    proof {
        reveal_strlit("hr");
        reveal_strlit("a");
        reveal_strlit("href");
        reveal_strlit("..");
        reveal_strlit("i");
        reveal_strlit("Up a directory");
        reveal_strlit("br");
        reveal_strlit("p");
        reveal_strlit("Error reading directory");
        reveal_strlit("form");
        reveal_strlit("method");
        reveal_strlit("post");
        reveal_strlit("enctype");
        reveal_strlit("multipart/form-data");
        reveal_strlit("input");
        reveal_strlit("type");
        reveal_strlit("file");
        reveal_strlit("name");
        reveal_strlit("data");
        reveal_strlit("submit");
    }
    let ghost c0 = body.children@;
    proof {
        assert(c0.subrange(0, c0.len() as int) =~= c0);
    }
    if relative_path.len() != 0 {
        let mut a = el("a", true);
        attr(&mut a, "href", generate_href(relative_path, lit_vec("..").as_slice()));
        let mut i = el("i", true);
        i.add_text(lit_vec("Up a directory"));
        a.add_child(&i);
        push_child(body, &a, Ghost(c0));
        push_child(body, &el("br", false), Ghost(c0));
    }
    match entries {
        Some(list) => {
            let table = generate_dir_table(relative_path, list);
            push_child(body, &table, Ghost(c0));
        },
        None => {
            let mut p = el("p", true);
            p.add_text(lit_vec("Error reading directory"));
            push_child(body, &p, Ghost(c0));
        },
    }
    if show_form {
        let mut upload_form = el("form", true);
        attr(&mut upload_form, "method", lit_vec("post"));
        attr(&mut upload_form, "enctype", lit_vec("multipart/form-data"));
        let mut file_input = el("input", false);
        attr(&mut file_input, "type", lit_vec("file"));
        attr(&mut file_input, "name", lit_vec("data"));
        let mut submit_input = el("input", false);
        attr(&mut submit_input, "type", lit_vec("submit"));
        upload_form.add_child(&file_input);
        upload_form.add_child(&submit_input);
        push_child(body, &el("hr", false), Ghost(c0));
        push_child(body, &upload_form, Ghost(c0));
    }
    push_child(body, &generate_default_footer(), Ghost(c0));
}

/// Adds a child, keeping what the element held before as a prefix.
fn push_child(e: &mut HtmlElement, child: &HtmlElement, Ghost(p): Ghost<Seq<u8>>)
    requires
        has_prefix(old(e).children@, p),
    ensures
        has_prefix(final(e).children@, p),
        final(e).text == old(e).text,
        final(e).tag == old(e).tag,
        final(e).attributes == old(e).attributes,
        final(e).classes == old(e).classes,
        final(e).can_have_children == old(e).can_have_children,
{
    let ghost before = e.children@;
    e.add_child(child);
    proof {
        if old(e).can_have_children {
            lemma_prefix_append(before, element_text(*child), p);
        }
    }
}

/// A directory listing page. `entries` is `None` when the directory could
/// not be read; `show_form` adds the upload form.
pub fn render_directory(relative_path: &[u8], entries: Option<&Vec<DirEntryInfo>>, show_form: bool) -> (r: Vec<u8>)
    ensures
        has_prefix(r@, lit("<html>"@)),
        has_suffix(r@, lit("</html>"@)),
        exists|i: int| #[trigger] occurs_at(r@, listing_title(relative_path@), i),
{
    proof {
        reveal_strlit("html");
        reveal_strlit("body");
        reveal_strlit("h1");
        reveal_strlit("hr");
        reveal_strlit("Directory listing for /");
        reveal_strlit("<html>");
        reveal_strlit("</html>");
        reveal_strlit("<h1>Directory listing for /");
        reveal_strlit("</h1>");
    }
    let mut html = el("html", true);
    let head = listing_head();
    html.add_child(&head);
    let mut body = el("body", true);
    let mut h1 = el("h1", true);
    let mut title = lit_vec("Directory listing for /");
    push_bytes(&mut title, relative_path);
    h1.add_text(title);
    body.add_child(&h1);
    let ghost t = listing_title(relative_path@);
    proof {
        assert(h1.attributes@ =~= Seq::<(Vec<u8>, Vec<u8>)>::empty());
        assert(element_text(h1) =~= t);
        assert(body.children@ =~= t);
        assert(body.children@.subrange(0, t.len() as int) =~= t);
    }
    push_child(&mut body, &el("hr", false), Ghost(t));
    let ghost c1 = body.children@;
    listing_rest(&mut body, relative_path, entries, show_form);
    proof {
        lemma_prefix_trans(body.children@, c1, t);
    }
    html.add_child(&body);
    let out = html.render();
    proof {
        let n = out@.len();
        assert(html.attributes@ =~= Seq::<(Vec<u8>, Vec<u8>)>::empty());
        assert(attributes_text(html.attributes@) =~= Seq::<u8>::empty());
        assert(classes_text(html.classes@) =~= Seq::<u8>::empty());
        assert(out@.subrange(0, 6) =~= lit("<html>"@));
        assert(out@.subrange(n - 7, n as int) =~= lit("</html>"@));
        let eh = element_text(head);
        let eb = element_text(body);
        let i: int = 6 + eh.len() as int + 6;
        assert(html.children@ =~= eh + eb);
        assert(body.text is None);
        assert(lit("html"@).len() == 4 && lit("body"@).len() == 4);
        assert(out@.subrange(6, 6 + eh.len() as int + eb.len() as int) =~= eh + eb);
        assert(eb.subrange(6, 6 + body.children@.len() as int) =~= body.children@);
        assert(attributes_text(body.attributes@) =~= Seq::<u8>::empty());
        assert(classes_text(body.classes@) =~= Seq::<u8>::empty());
        assert(out@.subrange(i, i + t.len()) =~= body.children@.subrange(0, t.len() as int));
        assert(occurs_at(out@, t, i));
    }
    out
}

/// The footer of a listing.
pub fn generate_default_footer() -> (r: HtmlElement)
    ensures
        r.tag@ == lit("footer"@),
        r.can_have_children,
{
    proof {
        reveal_strlit("footer");
        reveal_strlit("hr");
        reveal_strlit("pre");
        reveal_strlit("Rendered with hypershare revision 0.2.1.");
    }
    let mut footer = el("footer", true);
    let hr = el("hr", false);
    let mut pre = el("pre", true);
    pre.add_text(lit_vec("Rendered with hypershare revision 0.2.1."));
    footer.add_child(&hr);
    footer.add_child(&pre);
    footer
}

} // verus!
