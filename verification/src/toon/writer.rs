//! Writing TOON text.
use vstd::prelude::*;
use crate::text::{owned, push_signed_decimal, signed_decimal, string_push, string_push_str, chars_of, string_from_chars};
use crate::stdlib::module::source::line_run;
use super::value::{ToonDocument, ToonValue, ToonView, entries_view, list_view, lemma_entries_view, lemma_list_view};
use super::{b64_encode_spec, encode, ToonError};

verus! {

/// A line without a carriage return at its end.
pub open spec fn strip_cr(p: Seq<char>) -> Seq<char> {
    if p.len() > 0 && p.last() == '\r' {
        p.drop_last()
    } else {
        p
    }
}

/// The lines of a text as `str::lines` gives them: split after each
/// newline, a line that ended in a newline also losing a carriage return
/// before it, and no empty line after a final newline.
pub open spec fn str_lines(s: Seq<char>) -> Seq<Seq<char>> {
    let ps = line_run(s);
    let done = ps.drop_last().map_values(|p: Seq<char>| strip_cr(p));
    if ps.last().len() == 0 {
        done
    } else {
        done.push(ps.last())
    }
}

/// Each line on a line of its own, indented by `ind` and two spaces.
pub open spec fn block_text(lines: Seq<Seq<char>>, ind: Seq<char>) -> Seq<char>
    decreases lines.len(),
{
    if lines.len() == 0 {
        Seq::empty()
    } else {
        block_text(lines.drop_last(), ind) + ind + "  "@ + lines.last() + "\n"@
    }
}

/// The text of a value at indentation `ind`: `null`, `true`/`false`,
/// `i:` and the number, a quoted text (or `s:|` and its lines when it holds
/// a newline or a quote), `b:` and Base64, a bracketed list whose elements
/// are indented two more spaces, or a braced map with one `name: ` line per
/// entry and its value written without indentation.
pub open spec fn write_spec(v: ToonView, ind: Seq<char>) -> Seq<char>
    decreases v,
{
    match v {
        ToonView::Null => ind + "null\n"@,
        ToonView::Bool(b) => ind + (if b { "true"@ } else { "false"@ }) + "\n"@,
        ToonView::Integer(i) => ind + "i:"@ + signed_decimal(i as int) + "\n"@,
        ToonView::String(s) => if s.contains('\n') || s.contains('"') {
            ind + "s:|\n"@ + block_text(str_lines(s), ind)
        } else {
            ind + "s:\""@ + s + "\"\n"@
        },
        ToonView::Binary(d) => ind + "b:"@ + b64_encode_spec(d) + "\n"@,
        ToonView::List(items) => ind + "[\n"@ + items_text(items, ind + "  "@) + ind + "]\n"@,
        ToonView::Mapping(es) => ind + "{\n"@ + entries_text(es, ind) + ind + "}\n"@,
    }
}

/// The texts of list elements, in order.
pub open spec fn items_text(items: Seq<ToonView>, ind: Seq<char>) -> Seq<char>
    decreases items,
{
    if items.len() == 0 {
        Seq::empty()
    } else {
        items_text(items.drop_last(), ind) + write_spec(items.last(), ind)
    }
}

/// The lines of map entries, in order.
pub open spec fn entries_text(es: Seq<(Seq<char>, ToonView)>, ind: Seq<char>) -> Seq<char>
    decreases es,
{
    if es.len() == 0 {
        Seq::empty()
    } else {
        entries_text(es.drop_last(), ind) + ind + "  "@ + es.last().0 + ": "@ + write_spec(es.last().1, Seq::empty())
    }
}

/// The comment lines of the notes.
pub open spec fn notes_text(es: Seq<(String, String)>) -> Seq<char>
    decreases es.len(),
{
    if es.len() == 0 {
        Seq::empty()
    } else {
        notes_text(es.drop_last()) + "# "@ + es.last().0@ + ": "@ + es.last().1@ + "\n"@
    }
}

/// The text of a document: the format line, one comment line per note,
/// and the root value.
pub open spec fn document_text(notes: Seq<(String, String)>, root: ToonView) -> Seq<char> {
    "# Toon Format v1.0\n"@ + notes_text(notes) + write_spec(root, Seq::empty())
}

fn has_char(v: &Vec<char>, c: char) -> (r: bool)
    ensures
        r == v@.contains(c),
{
    let mut i: usize = 0;
    while i < v.len()
        invariant
            i <= v@.len(),
            forall|j: int| 0 <= j < i ==> v@[j] != c,
        decreases v@.len() - i,
    {
        if v[i] == c {
            return true;
        }
        i = i + 1;
    }
    false
}

/// Appends each line of `s` on its own line after `ind` and two spaces.
fn push_block(out: &mut String, s: &Vec<char>, ind: &str)
    ensures
        final(out)@ == old(out)@ + block_text(str_lines(s@), ind@),
{
    let mut line: Vec<char> = Vec::new();
    let mut i: usize = 0;
    let ghost c = s@;
    assert(c.take(0) =~= Seq::<char>::empty());
    assert(line_run(c.take(0)).drop_last().map_values(|p: Seq<char>| strip_cr(p)) =~= Seq::<Seq<char>>::empty());
    while i < s.len()
        invariant
            i <= c.len(),
            c == s@,
            line_run(c.take(i as int)).len() >= 1,
            line@ == line_run(c.take(i as int)).last(),
            out@ == old(out)@ + block_text(line_run(c.take(i as int)).drop_last().map_values(|p: Seq<char>| strip_cr(p)), ind@),
        decreases c.len() - i,
    {
        let ch = s[i];
        let ghost ls = line_run(c.take(i as int));
        assert(c.take(i + 1).drop_last() =~= c.take(i as int));
        assert(c.take(i + 1).last() == ch);
        if ch == '\n' {
            let ghost before = ls.drop_last().map_values(|p: Seq<char>| strip_cr(p));
            let n = line.len();
            let k = if n > 0 && line[n - 1] == '\r' { n - 1 } else { n };
            let mut piece: Vec<char> = Vec::new();
            let mut j: usize = 0;
            while j < k
                invariant
                    j <= k,
                    k <= line@.len(),
                    piece@ == line@.subrange(0, j as int),
                decreases k - j,
            {
                piece.push(line[j]);
                j = j + 1;
                assert(piece@ =~= line@.subrange(0, j as int));
            }
            assert(piece@ =~= strip_cr(line@));
            string_push_str(out, ind);
            string_push_str(out, "  ");
            string_push_str(out, string_from_chars(&piece).as_str());
            string_push_str(out, "\n");
            proof {
                let nls = line_run(c.take(i + 1));
                assert(nls == ls.push(Seq::empty()));
                assert(nls.drop_last() =~= ls);
                let after = nls.drop_last().map_values(|p: Seq<char>| strip_cr(p));
                assert(after.drop_last() =~= before);
                assert(after.last() == strip_cr(ls.last()));
                assert(out@ =~= old(out)@ + block_text(after, ind@));
            }
            line = Vec::new();
            proof {
                assert(line@ =~= Seq::<char>::empty());
            }
        } else {
            line.push(ch);
            proof {
                let nls = line_run(c.take(i + 1));
                assert(nls.drop_last() =~= ls.drop_last());
            }
        }
        i = i + 1;
    }
    assert(c.take(c.len() as int) =~= c);
    if line.len() > 0 {
        let ghost done = line_run(c).drop_last().map_values(|p: Seq<char>| strip_cr(p));
        string_push_str(out, ind);
        string_push_str(out, "  ");
        string_push_str(out, string_from_chars(&line).as_str());
        string_push_str(out, "\n");
        proof {
            assert(done.push(line@).drop_last() =~= done);
            assert(out@ =~= old(out)@ + block_text(done.push(line@), ind@));
        }
    }
}

/// Appends the text of `v` at indentation `ind`.
fn write_value(out: &mut String, v: &ToonValue, ind: &str)
    ensures
        final(out)@ == old(out)@ + write_spec(v@, ind@),
    decreases v,
{
    match v {
        ToonValue::Null => {
            string_push_str(out, ind);
            string_push_str(out, "null\n");
        },
        ToonValue::Bool(b) => {
            string_push_str(out, ind);
            string_push_str(out, if *b { "true" } else { "false" });
            string_push_str(out, "\n");
        },
        ToonValue::Integer(i) => {
            string_push_str(out, ind);
            string_push_str(out, "i:");
            push_signed_decimal(out, *i);
            string_push_str(out, "\n");
        },
        ToonValue::String(s) => {
            let cs = chars_of(s.as_str());
            if has_char(&cs, '\n') || has_char(&cs, '"') {
                string_push_str(out, ind);
                string_push_str(out, "s:|\n");
                push_block(out, &cs, ind);
            } else {
                string_push_str(out, ind);
                string_push_str(out, "s:\"");
                string_push_str(out, s.as_str());
                string_push_str(out, "\"\n");
            }
        },
        ToonValue::Binary(d) => {
            string_push_str(out, ind);
            string_push_str(out, "b:");
            let e = encode(d.as_slice());
            string_push_str(out, e.as_str());
            string_push_str(out, "\n");
        },
        ToonValue::List(items) => {
            string_push_str(out, ind);
            string_push_str(out, "[\n");
            let mut inner = owned(ind);
            string_push_str(&mut inner, "  ");
            let ghost start = out@;
            proof {
                lemma_list_view(items@);
            }
            let mut k: usize = 0;
            assert(list_view(items@).take(0) =~= Seq::<ToonView>::empty());
            while k < items.len()
                invariant
                    *v == ToonValue::List(*items),
                    k <= items@.len(),
                    list_view(items@).len() == items@.len(),
                    forall|j: int| 0 <= j < items@.len() ==> #[trigger] list_view(items@)[j] == value_view_of(items@[j]),
                    out@ == start + items_text(list_view(items@).take(k as int), inner@),
                decreases items@.len() - k,
            {
                proof {
                    assert(decreases_to!(*v => (*v)->List_0));
                    assert((*v)->List_0 == *items);
                    assert(decreases_to!(*items => items@));
                    assert(decreases_to!(items@ => items@[k as int]));
                }
                write_value(out, &items[k], inner.as_str());
                proof {
                    let t = list_view(items@).take(k + 1);
                    assert(t.drop_last() =~= list_view(items@).take(k as int));
                    assert(t.last() == items@[k as int]@);
                }
                k = k + 1;
            }
            assert(list_view(items@).take(k as int) =~= list_view(items@));
            string_push_str(out, ind);
            string_push_str(out, "]\n");
        },
        ToonValue::Mapping(es) => {
            string_push_str(out, ind);
            string_push_str(out, "{\n");
            let ghost start = out@;
            proof {
                lemma_entries_view(es@);
            }
            let mut k: usize = 0;
            assert(entries_view(es@).take(0) =~= Seq::<(Seq<char>, ToonView)>::empty());
            while k < es.len()
                invariant
                    *v == ToonValue::Mapping(*es),
                    k <= es@.len(),
                    entries_view(es@).len() == es@.len(),
                    forall|j: int| 0 <= j < es@.len() ==> #[trigger] entries_view(es@)[j] == (es@[j].0@, value_view_of(es@[j].1)),
                    out@ == start + entries_text(entries_view(es@).take(k as int), ind@),
                decreases es@.len() - k,
            {
                string_push_str(out, ind);
                string_push_str(out, "  ");
                string_push_str(out, es[k].0.as_str());
                string_push_str(out, ": ");
                proof {
                    assert(decreases_to!(*v => (*v)->Mapping_0));
                    assert((*v)->Mapping_0 == *es);
                    assert(decreases_to!(*es => es@));
                    assert(decreases_to!(es@ => es@[k as int]));
                    assert(decreases_to!(es@[k as int] => es@[k as int].1));
                }
                write_value(out, &es[k].1, "");
                proof {
                    reveal_strlit("");
                    assert(""@ =~= Seq::<char>::empty());
                    let t = entries_view(es@).take(k + 1);
                    assert(t.drop_last() =~= entries_view(es@).take(k as int));
                    assert(t.last() == (es@[k as int].0@, es@[k as int].1@));
                }
                k = k + 1;
            }
            assert(entries_view(es@).take(k as int) =~= entries_view(es@));
            string_push_str(out, ind);
            string_push_str(out, "}\n");
        },
    }
}

/// The view of a value (a name for use in quantifiers).
pub open spec fn value_view_of(v: ToonValue) -> ToonView {
    v@
}

impl ToonDocument {
    /// The document as TOON text.
    pub fn to_string(&self) -> (r: Result<String, ToonError>)
        ensures
            r matches Ok(t) && t@ == document_text(self.metadata.entries(), self.root@),
    {
        let mut out = owned("# Toon Format v1.0\n");
        let n = self.metadata.entry_count();
        let mut k: usize = 0;
        let ghost es = self.metadata.entries();
        assert(es.take(0) =~= Seq::<(String, String)>::empty());
        while k < n
            invariant
                k <= n,
                n == es.len(),
                es == self.metadata.entries(),
                out@ == "# Toon Format v1.0\n"@ + notes_text(es.take(k as int)),
            decreases n - k,
        {
            let e = self.metadata.entry_at(k);
            string_push_str(&mut out, "# ");
            string_push_str(&mut out, e.0.as_str());
            string_push_str(&mut out, ": ");
            string_push_str(&mut out, e.1.as_str());
            string_push_str(&mut out, "\n");
            proof {
                let t = es.take(k + 1);
                assert(t.drop_last() =~= es.take(k as int));
            }
            k = k + 1;
        }
        assert(es.take(n as int) =~= es);
        write_value(&mut out, &self.root, "");
        proof {
            reveal_strlit("");
            assert(""@ =~= Seq::<char>::empty());
        }
        Ok(out)
    }
}

/// The TOON text of a value in a document without notes.
pub fn to_string(value: &ToonValue) -> (r: Result<String, ToonError>)
    ensures
        r matches Ok(t) && t@ == document_text(Seq::empty(), value@),
{
    let mut out = owned("# Toon Format v1.0\n");
    write_value(&mut out, value, "");
    proof {
        reveal_strlit("");
        assert(""@ =~= Seq::<char>::empty());
        assert(notes_text(Seq::<(String, String)>::empty()) =~= Seq::<char>::empty());
    }
    Ok(out)
}

} // verus!
