//! Listing ("ls") payloads: the structured-text request naming a remote
//! path, and the response carrying the listed directory and its entries.

use crate::dir::{DirItem, DirItemType, DirItemView};
use crate::payload::PayloadError;
use crate::text::{
    lemma_parse_string_complete, lemma_parse_string_sound, parse_lit_at, parse_string_at,
    push_bytes, push_quoted, spec_parse_lit_at, spec_parse_string_at, spec_quoted,
};
use vstd::prelude::*;

verus! {

/// The text `{"path_on_remote":`.
pub open spec fn spec_lit_ls_path() -> Seq<u8> {
    seq![123u8, 34u8, 112u8, 97u8, 116u8, 104u8, 95u8, 111u8, 110u8, 95u8, 114u8, 101u8, 109u8,
        111u8, 116u8, 101u8, 34u8, 58u8]
}

fn lit_ls_path() -> (r: Vec<u8>)
    ensures
        r@ == spec_lit_ls_path(),
{
    let r: Vec<u8> = vec![123, 34, 112, 97, 116, 104, 95, 111, 110, 95, 114, 101, 109, 111, 116,
        101, 34, 58];
    proof {
        assert(r@ =~= spec_lit_ls_path());
    }
    r
}

/// The text `{"dir":`.
pub open spec fn spec_lit_ls_dir() -> Seq<u8> {
    seq![123u8, 34u8, 100u8, 105u8, 114u8, 34u8, 58u8]
}

fn lit_ls_dir() -> (r: Vec<u8>)
    ensures
        r@ == spec_lit_ls_dir(),
{
    let r: Vec<u8> = vec![123, 34, 100, 105, 114, 34, 58];
    proof {
        assert(r@ =~= spec_lit_ls_dir());
    }
    r
}

/// The text `,"items":`.
pub open spec fn spec_lit_ls_items() -> Seq<u8> {
    seq![44u8, 34u8, 105u8, 116u8, 101u8, 109u8, 115u8, 34u8, 58u8]
}

fn lit_ls_items() -> (r: Vec<u8>)
    ensures
        r@ == spec_lit_ls_items(),
{
    let r: Vec<u8> = vec![44, 34, 105, 116, 101, 109, 115, 34, 58];
    proof {
        assert(r@ =~= spec_lit_ls_items());
    }
    r
}

/// The text `"Dir"`.
pub open spec fn spec_lit_dir_word() -> Seq<u8> {
    seq![34u8, 68u8, 105u8, 114u8, 34u8]
}

fn lit_dir_word() -> (r: Vec<u8>)
    ensures
        r@ == spec_lit_dir_word(),
{
    let r: Vec<u8> = vec![34, 68, 105, 114, 34];
    proof {
        assert(r@ =~= spec_lit_dir_word());
    }
    r
}

/// The text `"File"`.
pub open spec fn spec_lit_file_word() -> Seq<u8> {
    seq![34u8, 70u8, 105u8, 108u8, 101u8, 34u8]
}

fn lit_file_word() -> (r: Vec<u8>)
    ensures
        r@ == spec_lit_file_word(),
{
    let r: Vec<u8> = vec![34, 70, 105, 108, 101, 34];
    proof {
        assert(r@ =~= spec_lit_file_word());
    }
    r
}

/// The word for an entry's kind.
pub open spec fn spec_kind_word(t: DirItemType) -> Seq<u8> {
    if t == DirItemType::Dir {
        spec_lit_dir_word()
    } else {
        spec_lit_file_word()
    }
}

/// The text form of one listing entry: its name and kind as a two-element
/// array.
pub open spec fn spec_dir_item_text(it: DirItemView) -> Seq<u8> {
    seq![91u8] + spec_quoted(it.name) + seq![44u8] + spec_kind_word(it.item_type) + seq![93u8]
}

/// Scan of one listing entry.
pub open spec fn spec_parse_item_at(b: Seq<u8>, p: int) -> Option<(DirItemView, int)> {
    if !(0 <= p < b.len() && b[p] == 91) {
        None
    } else {
        match spec_parse_string_at(b, p + 1) {
            None => None,
            Some((name, q1)) => if !(q1 < b.len() && b[q1] == 44) {
                None
            } else {
                match spec_parse_lit_at(b, q1 + 1, spec_lit_dir_word()) {
                    Some(q2) => if q2 < b.len() && b[q2] == 93 {
                        Some((DirItemView { name, item_type: DirItemType::Dir }, q2 + 1))
                    } else {
                        None
                    },
                    None => match spec_parse_lit_at(b, q1 + 1, spec_lit_file_word()) {
                        Some(q2) => if q2 < b.len() && b[q2] == 93 {
                            Some((DirItemView { name, item_type: DirItemType::File }, q2 + 1))
                        } else {
                            None
                        },
                        None => None,
                    },
                }
            },
        }
    }
}

/// What a successful entry scan consumed.
pub proof fn lemma_parse_item_sound(b: Seq<u8>, p: int)
    requires
        spec_parse_item_at(b, p) is Some,
    ensures
        ({
            let (it, q) = spec_parse_item_at(b, p)->Some_0;
            &&& 0 <= p < q <= b.len()
            &&& q == p + spec_dir_item_text(it).len()
            &&& b.subrange(p, q) == spec_dir_item_text(it)
        }),
{
    let (it, q) = spec_parse_item_at(b, p)->Some_0;
    let (name, q1) = spec_parse_string_at(b, p + 1)->Some_0;
    lemma_parse_string_sound(b, p + 1);
    assert(b.subrange(p, q) =~= seq![91u8] + b.subrange(p + 1, q1) + seq![44u8] + b.subrange(
        q1 + 1,
        q - 1,
    ) + seq![93u8]);
    assert(b.subrange(p, q) =~= spec_dir_item_text(it));
}

/// An entry scan over the text form of `it` finds `it`.
pub proof fn lemma_parse_item_complete(b: Seq<u8>, p: int, it: DirItemView)
    requires
        0 <= p,
        p + spec_dir_item_text(it).len() <= b.len(),
        b.subrange(p, p + spec_dir_item_text(it).len()) == spec_dir_item_text(it),
    ensures
        spec_parse_item_at(b, p) == Some((it, p + spec_dir_item_text(it).len())),
{
    let t = spec_dir_item_text(it);
    let qt = spec_quoted(it.name);
    let w = spec_kind_word(it.item_type);
    let sub = b.subrange(p, p + t.len());
    assert(sub == t);
    assert forall|i: int| 0 <= i < t.len() implies b[p + i] == t[i] by {
        assert(sub[i] == b[p + i]);
    }
    assert(t[0] == 91);
    assert(b[p] == 91);
    let q1 = p + 1 + qt.len();
    assert forall|i: int| 0 <= i < qt.len() implies b[p + 1 + i] == qt[i] by {
        assert(t[1 + i] == qt[i]);
    }
    assert(b.subrange(p + 1, q1) =~= qt);
    lemma_parse_string_complete(b, p + 1, it.name);
    assert(t[1 + qt.len() as int] == 44);
    assert(b[q1] == 44);
    let q2 = q1 + 1 + w.len();
    assert forall|i: int| 0 <= i < w.len() implies b[q1 + 1 + i] == w[i] by {
        assert(t[2 + qt.len() as int + i] == w[i]);
    }
    assert(b.subrange(q1 + 1, q2) =~= w);
    assert(t[2 + qt.len() as int + w.len() as int] == 93);
    assert(b[q2] == 93);
    if it.item_type == DirItemType::Dir {
        assert(spec_parse_lit_at(b, q1 + 1, spec_lit_dir_word()) == Some(q2));
    } else {
        assert(b.subrange(q1 + 1, q2)[1] == b[q1 + 2]);
        assert(b[q1 + 2] == spec_lit_file_word()[1]);
        if q1 + 1 + spec_lit_dir_word().len() <= b.len() {
            assert(b.subrange(q1 + 1, q1 + 1 + spec_lit_dir_word().len())[1] == b[q1 + 2]);
            assert(b.subrange(q1 + 1, q1 + 1 + spec_lit_dir_word().len())
                != spec_lit_dir_word());
        }
        assert(spec_parse_lit_at(b, q1 + 1, spec_lit_dir_word()) is None);
        assert(spec_parse_lit_at(b, q1 + 1, spec_lit_file_word()) == Some(q2));
    }
    assert(spec_parse_item_at(b, p) == Some((it, p + t.len())));
}

/// The comma-separated texts of one or more entries.
pub open spec fn spec_items_body(items: Seq<DirItemView>) -> Seq<u8>
    decreases items.len(),
{
    if items.len() <= 1 {
        if items.len() == 0 {
            Seq::empty()
        } else {
            spec_dir_item_text(items[0])
        }
    } else {
        spec_dir_item_text(items.first()) + seq![44u8] + spec_items_body(items.drop_first())
    }
}

/// The text form of a whole entry list.
pub open spec fn spec_items_text(items: Seq<DirItemView>) -> Seq<u8> {
    seq![91u8] + spec_items_body(items) + seq![93u8]
}

/// One more entry extends the body with a comma and its text.
pub proof fn lemma_items_body_push(items: Seq<DirItemView>, it: DirItemView)
    requires
        items.len() >= 1,
    ensures
        spec_items_body(items.push(it)) == spec_items_body(items) + seq![44u8]
            + spec_dir_item_text(it),
    decreases items.len(),
{
    reveal_with_fuel(spec_items_body, 3);
    if items.len() == 1 {
        assert(items.push(it).drop_first() =~= seq![it]);
        assert(spec_items_body(items.push(it)) =~= spec_items_body(items) + seq![44u8]
            + spec_dir_item_text(it));
    } else {
        assert(items.push(it).drop_first() =~= items.drop_first().push(it));
        lemma_items_body_push(items.drop_first(), it);
        assert(items.push(it).first() == items.first());
        assert(spec_items_body(items.push(it)) =~= spec_items_body(items) + seq![44u8]
            + spec_dir_item_text(it));
    }
}

/// Deterministic scan of the entries after the opening bracket: entries
/// separated by commas, ended by the closing bracket.
pub open spec fn spec_scan_items(b: Seq<u8>, p: int, acc: Seq<DirItemView>) -> Option<
    (Seq<DirItemView>, int),
>
    decreases b.len() - p,
{
    match spec_parse_item_at(b, p) {
        None => None,
        Some((it, q)) => if q < b.len() && b[q] == 44 {
            proof {
                lemma_parse_item_sound(b, p);
            }
            spec_scan_items(b, q + 1, acc.push(it))
        } else if q < b.len() && b[q] == 93 {
            Some((acc.push(it), q + 1))
        } else {
            None
        },
    }
}

/// Scan of a whole entry list.
pub open spec fn spec_parse_items_at(b: Seq<u8>, p: int) -> Option<(Seq<DirItemView>, int)> {
    if !(0 <= p < b.len() && b[p] == 91) {
        None
    } else if p + 1 < b.len() && b[p + 1] == 93 {
        Some((Seq::empty(), p + 2))
    } else {
        spec_scan_items(b, p + 1, Seq::empty())
    }
}

/// What a successful entry-list scan consumed: the bodies of what it added
/// to the accumulator, and the closing bracket.
pub proof fn lemma_scan_items_sound(b: Seq<u8>, p: int, acc: Seq<DirItemView>)
    requires
        spec_scan_items(b, p, acc) is Some,
    ensures
        ({
            let (items, q) = spec_scan_items(b, p, acc)->Some_0;
            &&& 0 <= p < q <= b.len()
            &&& acc.len() < items.len()
            &&& items.take(acc.len() as int) == acc
            &&& b.subrange(p, q) == spec_items_body(items.skip(acc.len() as int)) + seq![93u8]
        }),
    decreases b.len() - p,
{
    let (items, q) = spec_scan_items(b, p, acc)->Some_0;
    let (it, q0) = spec_parse_item_at(b, p)->Some_0;
    lemma_parse_item_sound(b, p);
    reveal_with_fuel(spec_items_body, 3);
    if q0 < b.len() && b[q0] == 44 {
        let acc2 = acc.push(it);
        lemma_scan_items_sound(b, q0 + 1, acc2);
        assert forall|i: int| 0 <= i <= acc.len() implies items[i] == acc2[i] by {
            assert(items.take(acc2.len() as int)[i] == items[i]);
        }
        assert(items.take(acc.len() as int) =~= acc);
        let t = items.skip(acc2.len() as int);
        let t0 = items.skip(acc.len() as int);
        assert(t0 =~= seq![it] + t);
        assert(t0.first() == it && t0.drop_first() =~= t);
        assert(t0.len() >= 2);
        assert(spec_items_body(t0) == spec_dir_item_text(it) + seq![44u8] + spec_items_body(t));
        assert(b.subrange(p, q) =~= b.subrange(p, q0) + seq![44u8] + b.subrange(q0 + 1, q));
        assert(b.subrange(p, q) =~= spec_items_body(t0) + seq![93u8]);
    } else {
        assert(items =~= acc.push(it));
        assert(items.take(acc.len() as int) =~= acc);
        let t0 = items.skip(acc.len() as int);
        assert(t0 =~= seq![it]);
        assert(spec_items_body(t0) == spec_dir_item_text(it));
        assert(b.subrange(p, q) =~= b.subrange(p, q0) + seq![93u8]);
        assert(b.subrange(p, q) =~= spec_items_body(t0) + seq![93u8]);
    }
}

/// An entry scan over the bodies of `t` and a closing bracket finds `t`.
pub proof fn lemma_scan_items_complete(b: Seq<u8>, p: int, acc: Seq<DirItemView>, t: Seq<
    DirItemView,
>)
    requires
        0 <= p,
        t.len() >= 1,
        p + spec_items_body(t).len() + 1 <= b.len(),
        b.subrange(p, p + spec_items_body(t).len() + 1) == spec_items_body(t) + seq![93u8],
    ensures
        spec_scan_items(b, p, acc) == Some((acc + t, p + spec_items_body(t).len() + 1)),
    decreases t.len(),
{
    reveal_with_fuel(spec_items_body, 3);
    let body = spec_items_body(t);
    let sub = b.subrange(p, p + body.len() + 1);
    assert(sub == body + seq![93u8]);
    assert forall|i: int| 0 <= i < body.len() + 1 implies b[p + i] == (body + seq![93u8])[i] by {
        assert(sub[i] == b[p + i]);
    }
    let it = t.first();
    let itt = spec_dir_item_text(it);
    if t.len() == 1 {
        assert(body == itt);
        assert(b.subrange(p, p + itt.len()) =~= itt);
        lemma_parse_item_complete(b, p, it);
        assert((body + seq![93u8])[itt.len() as int] == 93);
        assert(b[p + itt.len() as int] == 93);
        assert(acc + t =~= acc.push(it));
    } else {
        let rest = t.drop_first();
        let rbody = spec_items_body(rest);
        assert(body == itt + seq![44u8] + rbody);
        assert(b.subrange(p, p + itt.len()) =~= itt);
        lemma_parse_item_complete(b, p, it);
        assert((itt + seq![44u8] + rbody)[itt.len() as int] == 44);
        assert((body + seq![93u8])[itt.len() as int] == 44);
        assert(b[p + itt.len() as int] == 44);
        let p2 = p + itt.len() + 1;
        assert forall|i: int| 0 <= i < rbody.len() + 1 implies b[p2 + i] == (rbody
            + seq![93u8])[i] by {
            assert(b[p + (itt.len() + 1 + i)] == (body + seq![93u8])[itt.len() + 1 + i]);
            assert((body + seq![93u8])[itt.len() + 1 + i] == (rbody + seq![93u8])[i]);
        }
        assert(b.subrange(p2, p2 + rbody.len() + 1) =~= rbody + seq![93u8]);
        lemma_scan_items_complete(b, p2, acc.push(it), rest);
        assert(acc.push(it) + rest =~= acc + t);
    }
}

/// A listing request: the remote path whose contents are wanted.
pub struct LsRequestPayload {
    pub path_on_remote: Vec<u8>,
}

/// The mathematical content of an [`LsRequestPayload`].
pub ghost struct LsRequestPayloadView {
    pub path_on_remote: Seq<u8>,
}

impl View for LsRequestPayload {
    type V = LsRequestPayloadView;

    open spec fn view(&self) -> LsRequestPayloadView {
        LsRequestPayloadView { path_on_remote: self.path_on_remote@ }
    }
}

/// The canonical text form of a listing request.
pub open spec fn spec_ls_request_text(g: LsRequestPayloadView) -> Seq<u8> {
    spec_lit_ls_path() + spec_quoted(g.path_on_remote) + seq![125u8]
}

/// The deterministic scan of listing request text.
pub open spec fn spec_parse_ls_request(b: Seq<u8>) -> Option<LsRequestPayloadView> {
    match spec_parse_lit_at(b, 0, spec_lit_ls_path()) {
        None => None,
        Some(p1) => match spec_parse_string_at(b, p1) {
            None => None,
            Some((path, p2)) => if p2 < b.len() && b[p2] == 125 && p2 + 1 == b.len() {
                Some(LsRequestPayloadView { path_on_remote: path })
            } else {
                None
            },
        },
    }
}

impl LsRequestPayload {
    pub fn new(path_on_remote: Vec<u8>) -> (r: Self)
        ensures
            r@ == (LsRequestPayloadView { path_on_remote: path_on_remote@ }),
    {
        LsRequestPayload { path_on_remote }
    }

    /// Emit the canonical text form.
    pub fn to_text(&self) -> (r: Vec<u8>)
        ensures
            r@ == spec_ls_request_text(self@),
    {
        let mut out: Vec<u8> = Vec::new();
        let l1 = lit_ls_path();
        push_bytes(&mut out, &l1);
        push_quoted(&mut out, &self.path_on_remote);
        out.push(125);
        proof {
            assert(out@ =~= spec_ls_request_text(self@));
        }
        out
    }

    /// Read a request back from its canonical text form; any other input is
    /// malformed.
    pub fn from_text(input: &Vec<u8>) -> (r: Result<Self, PayloadError>)
        ensures
            match spec_parse_ls_request(input@) {
                Some(g) => r matches Ok(v) && v@ == g,
                None => r == Err::<LsRequestPayload, PayloadError>(PayloadError::Malformed),
            },
    {
        let l1 = lit_ls_path();
        let p1 = match parse_lit_at(input, 0, &l1) {
            Some(p) => p,
            None => {
                return Err(PayloadError::Malformed);
            },
        };
        let (path, p2) = match parse_string_at(input, p1) {
            Some(x) => x,
            None => {
                return Err(PayloadError::Malformed);
            },
        };
        if p2 >= input.len() || input[p2] != 125 || p2 + 1 != input.len() {
            return Err(PayloadError::Malformed);
        }
        Ok(LsRequestPayload { path_on_remote: path })
    }
}

/// Listing request text that scans back is exactly the canonical text of
/// what it scans to.
pub proof fn lemma_ls_request_text_sound(b: Seq<u8>)
    requires
        spec_parse_ls_request(b) is Some,
    ensures
        b == spec_ls_request_text(spec_parse_ls_request(b)->Some_0),
{
    let p1 = spec_parse_lit_at(b, 0, spec_lit_ls_path())->Some_0;
    let (path, p2) = spec_parse_string_at(b, p1)->Some_0;
    lemma_parse_string_sound(b, p1);
    assert(b.subrange(p2, b.len() as int) =~= seq![125u8]);
    assert(b =~= b.subrange(0, p1) + b.subrange(p1, p2) + b.subrange(p2, b.len() as int));
    assert(b =~= spec_ls_request_text(spec_parse_ls_request(b)->Some_0));
}

/// The canonical text of a listing request scans back to the request
/// itself.
pub proof fn lemma_ls_request_text_complete(g: LsRequestPayloadView)
    ensures
        spec_parse_ls_request(spec_ls_request_text(g)) == Some(g),
{
    let b = spec_ls_request_text(g);
    let l1 = spec_lit_ls_path();
    let qt = spec_quoted(g.path_on_remote);
    let p1 = l1.len() as int;
    let p2 = p1 + qt.len();
    assert(b.len() == p2 + 1);
    assert(b.subrange(0, p1) =~= l1);
    assert(b.subrange(p1, p2) =~= qt);
    assert(b[p2] == 125);
    assert(spec_parse_lit_at(b, 0, l1) == Some(p1));
    lemma_parse_string_complete(b, p1, g.path_on_remote);
    assert(spec_parse_ls_request(b) == Some(g));
}

/// A listing response: the directory that was listed and its entries.
pub struct LsResponsePayload {
    pub dir: Vec<u8>,
    pub items: Vec<DirItem>,
}

/// The mathematical content of an [`LsResponsePayload`].
pub ghost struct LsResponsePayloadView {
    pub dir: Seq<u8>,
    pub items: Seq<DirItemView>,
}

/// The views of a list of entries.
pub open spec fn spec_items_view(items: Seq<DirItem>) -> Seq<DirItemView> {
    items.map_values(|d: DirItem| d@)
}

impl View for LsResponsePayload {
    type V = LsResponsePayloadView;

    open spec fn view(&self) -> LsResponsePayloadView {
        LsResponsePayloadView { dir: self.dir@, items: spec_items_view(self.items@) }
    }
}

/// The canonical text form of a listing response.
pub open spec fn spec_ls_response_text(g: LsResponsePayloadView) -> Seq<u8> {
    spec_lit_ls_dir() + spec_quoted(g.dir) + spec_lit_ls_items() + spec_items_text(g.items)
        + seq![125u8]
}

/// The deterministic scan of listing response text.
pub open spec fn spec_parse_ls_response(b: Seq<u8>) -> Option<LsResponsePayloadView> {
    match spec_parse_lit_at(b, 0, spec_lit_ls_dir()) {
        None => None,
        Some(p1) => match spec_parse_string_at(b, p1) {
            None => None,
            Some((dir, p2)) => match spec_parse_lit_at(b, p2, spec_lit_ls_items()) {
                None => None,
                Some(p3) => match spec_parse_items_at(b, p3) {
                    None => None,
                    Some((items, p4)) => if p4 < b.len() && b[p4] == 125 && p4 + 1 == b.len() {
                        Some(LsResponsePayloadView { dir, items })
                    } else {
                        None
                    },
                },
            },
        },
    }
}

/// Emit one entry's text form.
fn push_dir_item_text(out: &mut Vec<u8>, it: &DirItem)
    ensures
        final(out)@ == old(out)@ + spec_dir_item_text(it@),
{
    out.push(91);
    push_quoted(out, &it.0);
    out.push(44);
    let w = if it.is_file() {
        lit_file_word()
    } else {
        lit_dir_word()
    };
    push_bytes(out, &w);
    out.push(93);
    proof {
        assert(out@ =~= old(out)@ + spec_dir_item_text(it@));
    }
}

impl LsResponsePayload {
    pub fn new(dir: Vec<u8>, items: Vec<DirItem>) -> (r: Self)
        ensures
            r@ == (LsResponsePayloadView { dir: dir@, items: spec_items_view(items@) }),
    {
        LsResponsePayload { dir, items }
    }

    /// Emit the canonical text form.
    pub fn to_text(&self) -> (r: Vec<u8>)
        ensures
            r@ == spec_ls_response_text(self@),
    {
        let mut out: Vec<u8> = Vec::new();
        let l1 = lit_ls_dir();
        push_bytes(&mut out, &l1);
        push_quoted(&mut out, &self.dir);
        let l2 = lit_ls_items();
        push_bytes(&mut out, &l2);
        out.push(91);
        let ghost head = out@;
        let ghost ivs = spec_items_view(self.items@);
        let n = self.items.len();
        for i in 0..n
            invariant
                n == self.items@.len(),
                ivs == spec_items_view(self.items@),
                out@ == head + spec_items_body(ivs.take(i as int)),
        {
            proof {
                assert(ivs.take(i + 1) =~= ivs.take(i as int).push(ivs[i as int]));
                if i > 0 {
                    lemma_items_body_push(ivs.take(i as int), ivs[i as int]);
                } else {
                    reveal_with_fuel(spec_items_body, 2);
                    assert(ivs.take(1)[0] == ivs[0]);
                }
            }
            if i > 0 {
                out.push(44);
            }
            push_dir_item_text(&mut out, &self.items[i]);
            proof {
                assert(ivs[i as int] == self.items@[i as int]@);
                assert(out@ =~= head + spec_items_body(ivs.take(i + 1)));
            }
        }
        proof {
            assert(ivs.take(n as int) =~= ivs);
        }
        out.push(93);
        out.push(125);
        proof {
            assert(out@ =~= spec_ls_response_text(self@));
        }
        out
    }

    /// Read a response back from its canonical text form; any other input
    /// is malformed.
    pub fn from_text(input: &Vec<u8>) -> (r: Result<Self, PayloadError>)
        ensures
            match spec_parse_ls_response(input@) {
                Some(g) => r matches Ok(v) && v@ == g,
                None => r == Err::<LsResponsePayload, PayloadError>(PayloadError::Malformed),
            },
    {
        let l1 = lit_ls_dir();
        let p1 = match parse_lit_at(input, 0, &l1) {
            Some(p) => p,
            None => {
                return Err(PayloadError::Malformed);
            },
        };
        let (dir, p2) = match parse_string_at(input, p1) {
            Some(x) => x,
            None => {
                return Err(PayloadError::Malformed);
            },
        };
        let l2 = lit_ls_items();
        let p3 = match parse_lit_at(input, p2, &l2) {
            Some(p) => p,
            None => {
                return Err(PayloadError::Malformed);
            },
        };
        let (items, p4) = match parse_items_at(input, p3) {
            Some(x) => x,
            None => {
                return Err(PayloadError::Malformed);
            },
        };
        if p4 >= input.len() || input[p4] != 125 || p4 + 1 != input.len() {
            return Err(PayloadError::Malformed);
        }
        Ok(LsResponsePayload { dir, items })
    }
}

/// Match one listing entry at `pos`.
fn parse_item_at(input: &Vec<u8>, pos: usize) -> (r: Option<(DirItem, usize)>)
    ensures
        match spec_parse_item_at(input@, pos as int) {
            Some((it, q)) => r matches Some((v, vq)) && v@ == it && vq == q,
            None => r is None,
        },
{
    if pos >= input.len() || input[pos] != 91 {
        return None;
    }
    let (name, q1) = match parse_string_at(input, pos + 1) {
        Some(x) => x,
        None => {
            return None;
        },
    };
    if q1 >= input.len() || input[q1] != 44 {
        return None;
    }
    let dw = lit_dir_word();
    let (kind, q2) = match parse_lit_at(input, q1 + 1, &dw) {
        Some(q) => (DirItemType::Dir, q),
        None => {
            let fw = lit_file_word();
            match parse_lit_at(input, q1 + 1, &fw) {
                Some(q) => (DirItemType::File, q),
                None => {
                    return None;
                },
            }
        },
    };
    if q2 >= input.len() || input[q2] != 93 {
        return None;
    }
    Some((DirItem(name, kind), q2 + 1))
}

/// Match a whole entry list at `pos`.
fn parse_items_at(input: &Vec<u8>, pos: usize) -> (r: Option<(Vec<DirItem>, usize)>)
    ensures
        match spec_parse_items_at(input@, pos as int) {
            Some((items, q)) => r matches Some((v, vq)) && spec_items_view(v@) == items && vq == q,
            None => r is None,
        },
{
    if pos >= input.len() || input[pos] != 91 {
        return None;
    }
    if pos + 1 < input.len() && input[pos + 1] == 93 {
        let items: Vec<DirItem> = Vec::new();
        proof {
            assert(spec_items_view(items@) =~= Seq::<DirItemView>::empty());
        }
        return Some((items, pos + 2));
    }
    let mut acc: Vec<DirItem> = Vec::new();
    let mut p = pos + 1;
    proof {
        assert(spec_items_view(acc@) =~= Seq::<DirItemView>::empty());
    }
    loop
        invariant
            pos + 1 <= p <= input@.len(),
            spec_parse_items_at(input@, pos as int) == spec_scan_items(
                input@,
                p as int,
                spec_items_view(acc@),
            ),
        decreases input@.len() - p,
    {
        let (it, q) = match parse_item_at(input, p) {
            Some(x) => x,
            None => {
                return None;
            },
        };
        proof {
            lemma_parse_item_sound(input@, p as int);
        }
        if q < input.len() && input[q] == 44 {
            proof {
                assert(spec_items_view(acc@.push(it)) =~= spec_items_view(acc@).push(it@));
            }
            acc.push(it);
            p = q + 1;
        } else if q < input.len() && input[q] == 93 {
            proof {
                assert(spec_items_view(acc@.push(it)) =~= spec_items_view(acc@).push(it@));
            }
            acc.push(it);
            return Some((acc, q + 1));
        } else {
            return None;
        }
    }
}

/// Listing response text that scans back is exactly the canonical text of
/// what it scans to.
pub proof fn lemma_ls_response_text_sound(b: Seq<u8>)
    requires
        spec_parse_ls_response(b) is Some,
    ensures
        b == spec_ls_response_text(spec_parse_ls_response(b)->Some_0),
{
    let p1 = spec_parse_lit_at(b, 0, spec_lit_ls_dir())->Some_0;
    let (dir, p2) = spec_parse_string_at(b, p1)->Some_0;
    lemma_parse_string_sound(b, p1);
    let p3 = spec_parse_lit_at(b, p2, spec_lit_ls_items())->Some_0;
    let (items, p4) = spec_parse_items_at(b, p3)->Some_0;
    reveal_with_fuel(spec_items_body, 2);
    if p3 + 1 < b.len() && b[p3 + 1] == 93 {
        assert(b.subrange(p3, p4) =~= seq![91u8, 93u8]);
        assert(b.subrange(p3, p4) =~= spec_items_text(items));
    } else {
        lemma_scan_items_sound(b, p3 + 1, Seq::empty());
        assert(items.skip(0) =~= items);
        assert(b.subrange(p3, p4) =~= seq![91u8] + b.subrange(p3 + 1, p4));
        assert(b.subrange(p3, p4) =~= spec_items_text(items));
    }
    assert(b.subrange(p4, b.len() as int) =~= seq![125u8]);
    assert(b =~= b.subrange(0, p1) + b.subrange(p1, p2) + b.subrange(p2, p3) + b.subrange(p3, p4)
        + b.subrange(p4, b.len() as int));
    assert(b =~= spec_ls_response_text(spec_parse_ls_response(b)->Some_0));
}

/// The canonical text of a listing response scans back to the response
/// itself.
#[verifier::spinoff_prover]
#[verifier::rlimit(80)]
pub proof fn lemma_ls_response_text_complete(g: LsResponsePayloadView)
    ensures
        spec_parse_ls_response(spec_ls_response_text(g)) == Some(g),
{
    let b = spec_ls_response_text(g);
    let l1 = spec_lit_ls_dir();
    let qt = spec_quoted(g.dir);
    let l2 = spec_lit_ls_items();
    let it = spec_items_text(g.items);
    let p1 = l1.len() as int;
    let p2 = p1 + qt.len();
    let p3 = p2 + l2.len();
    let p4 = p3 + it.len();
    assert(b.len() == p4 + 1);
    assert(b.subrange(0, p1) =~= l1);
    assert(b.subrange(p1, p2) =~= qt);
    assert(b.subrange(p2, p3) =~= l2);
    assert(b.subrange(p3, p4) =~= it);
    assert(b[p4] == 125);
    assert(spec_parse_lit_at(b, 0, l1) == Some(p1));
    lemma_parse_string_complete(b, p1, g.dir);
    assert(spec_parse_lit_at(b, p2, l2) == Some(p3));
    let sub = b.subrange(p3, p4);
    assert forall|i: int| 0 <= i < it.len() implies b[p3 + i] == it[i] by {
        assert(sub[i] == b[p3 + i]);
    }
    assert(b[p3] == 91);
    reveal_with_fuel(spec_items_body, 2);
    assert(spec_parse_string_at(b, p1) == Some((g.dir, p2)));
    if g.items.len() == 0 {
        assert(it =~= seq![91u8, 93u8]);
        assert(b[p3 + 1] == 93);
        assert(g.items =~= Seq::<DirItemView>::empty());
        assert(spec_parse_items_at(b, p3) == Some((g.items, p3 + 2)));
    } else {
        let body = spec_items_body(g.items);
        assert(it == seq![91u8] + body + seq![93u8]);
        assert(b[p3 + 1] == it[1]);
        assert(body.len() >= 1 ==> it[1] == body[0]);
        assert(body[0] == spec_dir_item_text(g.items.first())[0]) by {
            if g.items.len() == 1 {
            } else {
                assert(body[0] == (spec_dir_item_text(g.items.first()) + seq![44u8]
                    + spec_items_body(g.items.drop_first()))[0]);
            }
        }
        assert(spec_dir_item_text(g.items.first())[0] == 91);
        assert(b[p3 + 1] == 91);
        assert(b.subrange(p3 + 1, p3 + 1 + body.len() + 1) =~= body + seq![93u8]);
        lemma_scan_items_complete(b, p3 + 1, Seq::empty(), g.items);
        assert(Seq::empty() + g.items =~= g.items);
        assert(spec_parse_items_at(b, p3) == Some((g.items, p4)));
    }
    assert(spec_parse_ls_response(b) == Some(g));
}

} // verus!
