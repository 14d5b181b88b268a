//! Presentation of notes: each note becomes one block of three lines,
//! the author handle, the text, and a separator.

use vstd::prelude::*;
use crate::model::{Note, NoteView};
use crate::model::views_of;

verus! {

/// The label printed for an author on the home server.
pub open spec fn default_host() -> Seq<char> {
    "misskey.io"@
}

/// The server label of an author: the host as given, or the home-server
/// label where none is.
pub open spec fn host_label(host: Option<Seq<char>>) -> Seq<char> {
    match host {
        Some(h) => h,
        None => default_host(),
    }
}

/// One printed block: `<id>@<host label>`, the text, and a separator
/// line, each ended by a newline.
pub open spec fn note_block(shown_id: Seq<char>, host: Option<Seq<char>>, text: Seq<char>) -> Seq<char> {
    shown_id + "@"@ + host_label(host) + "\n"@ + text + "\n----\n"@
}

/// The whole printed output: one block per note, in order.
pub open spec fn render_spec(ns: Seq<NoteView>) -> Seq<char>
    decreases ns.len(),
{
    if ns.len() == 0 {
        Seq::empty()
    } else {
        note_block(ns[0].user.id, ns[0].user.host, ns[0].text) + render_spec(ns.skip(1))
    }
}

/// Appending one note to a sequence appends exactly that note's block to
/// the rendering and leaves the earlier output unchanged: blocks come out
/// one per note, in the notes' order.
pub proof fn lemma_render_push(ns: Seq<NoteView>, v: NoteView)
    ensures
        render_spec(ns.push(v)) == render_spec(ns)
            + note_block(v.user.id, v.user.host, v.text),
    decreases ns.len(),
{
    let block = note_block(v.user.id, v.user.host, v.text);
    if ns.len() == 0 {
        assert(ns.push(v)[0] == v);
        assert(ns.push(v).skip(1) =~= Seq::<NoteView>::empty());
        assert(render_spec(Seq::<NoteView>::empty()) == Seq::<char>::empty());
        assert(render_spec(ns.push(v)) == block + Seq::<char>::empty());
        assert(render_spec(ns) == Seq::<char>::empty());
        assert(block + Seq::<char>::empty() =~= Seq::<char>::empty() + block);
    } else {
        assert(ns.push(v)[0] == ns[0]);
        assert(ns.push(v).skip(1) =~= ns.skip(1).push(v));
        lemma_render_push(ns.skip(1), v);
        assert(render_spec(ns.push(v)) =~= render_spec(ns) + block);
    }
}

/// The mathematical value of an optional host string.
pub open spec fn host_view(host: Option<String>) -> Option<Seq<char>> {
    match host {
        Some(h) => Some(h@),
        None => None,
    }
}

/// Builds one printed block, with the author identifier shown as given
/// (the styled form, or the identifier itself).
pub fn render_block(shown_id: &str, host: &Option<String>, text: &str) -> (r: String)
    ensures
        r@ == note_block(shown_id@, host_view(*host), text@),
{
    let mut out = String::new();
    out.append(shown_id);
    out.append("@");
    match host {
        Some(h) => out.append(h.as_str()),
        None => out.append("misskey.io"),
    }
    out.append("\n");
    out.append(text);
    out.append("\n----\n");
    out
}

/// Renders the whole output for a sequence of notes, with each author
/// identifier shown plainly.
pub fn render_notes(notes: &Vec<Note>) -> (r: String)
    ensures
        r@ == render_spec(views_of(notes@)),
{
    let mut out = String::new();
    let mut i: usize = 0;
    proof {
        assert(views_of(notes@).take(0) =~= Seq::<NoteView>::empty());
    }
    while i < notes.len()
        invariant
            0 <= i <= notes@.len(),
            out@ == render_spec(views_of(notes@).take(i as int)),
        decreases notes@.len() - i,
    {
        let note = &notes[i];
        let block = render_block(note.user.id.as_str(), &note.user.host, note.text.as_str());
        out.append(block.as_str());
        proof {
            let vs = views_of(notes@);
            assert(vs.take(i + 1) =~= vs.take(i as int).push(vs[i as int]));
            lemma_render_push(vs.take(i as int), vs[i as int]);
        }
        i = i + 1;
    }
    proof {
        assert(views_of(notes@).take(notes@.len() as int) =~= views_of(notes@));
    }
    out
}

/// Relies on `colored::Colorize::cyan` and `bold`, and on the styled
/// string's rendering to `String`: styles the author identifier for the
/// terminal. What comes back depends on the terminal environment, so
/// nothing is claimed of it.
#[verifier::external_body]
fn styled_id(id: &str) -> (r: String) {
    colored::Colorize::bold(colored::Colorize::cyan(id)).to_string()
}

/// Whether `b` is the printed block of the note `v`, with some string —
/// whatever the styler produced — standing where the identifier would.
pub open spec fn block_of(b: Seq<char>, v: NoteView) -> bool {
    exists|sid: Seq<char>| b == #[trigger] note_block(sid, v.user.host, v.text)
}

/// Whether `bs` holds the printed block of each of the notes `ns`, one
/// per note, in the notes' order.
pub open spec fn blocks_of(bs: Seq<String>, ns: Seq<NoteView>) -> bool {
    bs.len() == ns.len() && forall|i: int| 0 <= i < ns.len() ==> #[trigger] block_of(bs[i]@, ns[i])
}

/// Renders one block per note, in order, with each author identifier
/// passed through the terminal styler; whatever the styler returned
/// stands where the identifier would.
pub fn render_notes_styled(notes: &Vec<Note>) -> (r: Vec<String>)
    ensures
        blocks_of(r@, views_of(notes@)),
{
    let mut blocks: Vec<String> = Vec::new();
    let ghost mut sids: Seq<Seq<char>> = Seq::empty();
    let mut i: usize = 0;
    while i < notes.len()
        invariant
            0 <= i <= notes@.len(),
            blocks@.len() == i,
            sids.len() == i,
            forall|j: int| #![trigger blocks@[j]] 0 <= j < i ==>
                blocks@[j]@ == note_block(sids[j], notes@[j]@.user.host, notes@[j]@.text),
        decreases notes@.len() - i,
    {
        let note = &notes[i];
        let shown = styled_id(note.user.id.as_str());
        let block = render_block(shown.as_str(), &note.user.host, note.text.as_str());
        blocks.push(block);
        proof {
            sids = sids.push(shown@);
            assert(blocks@[i as int]@ == note_block(sids[i as int],
                notes@[i as int]@.user.host, notes@[i as int]@.text));
        }
        i = i + 1;
    }
    proof {
        let vs = views_of(notes@);
        assert forall|k: int| 0 <= k < vs.len() implies
            #[trigger] block_of(blocks@[k]@, vs[k]) by {
            assert(blocks@[k]@ == note_block(sids[k], notes@[k]@.user.host,
                notes@[k]@.text));
        }
    }
    blocks
}

} // verus!
