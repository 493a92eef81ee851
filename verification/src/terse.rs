//! nmcli's terse output (`nmcli -t`): one record per line, fields separated
//! by `:`, with `:` and `\` inside a value escaped by a backslash.

use vstd::prelude::*;
use crate::text::views;

verus! {

/// Reads `s` left to right: `fields` are the fields already closed, `current`
/// the one being read, `escaped` whether the previous character was an
/// unescaped backslash.
pub open spec fn fields_from(
    s: Seq<char>,
    fields: Seq<Seq<char>>,
    current: Seq<char>,
    escaped: bool,
) -> Seq<Seq<char>>
    decreases s.len(),
{
    if s.len() == 0 {
        fields.push(current)
    } else {
        let c = s[0];
        let rest = s.drop_first();
        if escaped {
            fields_from(rest, fields, current.push(c), false)
        } else if c == '\\' {
            fields_from(rest, fields, current, true)
        } else if c == ':' {
            fields_from(rest, fields.push(current), seq![], false)
        } else {
            fields_from(rest, fields, current.push(c), false)
        }
    }
}

/// The fields of one terse line: split at unescaped colons, with each escaping
/// backslash removed.
pub open spec fn terse_fields(line: Seq<char>) -> Seq<Seq<char>> {
    fields_from(line, seq![], seq![], false)
}

/// A value as nmcli writes it in terse mode.
pub open spec fn escape(v: Seq<char>) -> Seq<char>
    decreases v.len(),
{
    if v.len() == 0 {
        seq![]
    } else if v[0] == '\\' || v[0] == ':' {
        seq!['\\', v[0]] + escape(v.drop_first())
    } else {
        seq![v[0]] + escape(v.drop_first())
    }
}

/// A record as nmcli writes it in terse mode.
pub open spec fn terse_line(fields: Seq<Seq<char>>) -> Seq<char>
    decreases fields.len(),
{
    if fields.len() <= 1 {
        if fields.len() == 1 {
            escape(fields[0])
        } else {
            seq![]
        }
    } else {
        escape(fields[0]) + seq![':'] + terse_line(fields.drop_first())
    }
}

/// `nmcli -t` escapes `:` inside values as `\:`, so a plain split on `:`
/// would tear an SSID in half. This splits on unescaped colons only and
/// unescapes the rest.
pub fn split_terse(line: &[char]) -> (r: Vec<Vec<char>>)
    ensures
        views(r@) == terse_fields(line@),
        r@.len() >= 1,
{
    let mut fields: Vec<Vec<char>> = Vec::new();
    let mut current: Vec<char> = Vec::new();
    let mut escaped = false;
    let mut i: usize = 0;
    assert(line@.skip(0) =~= line@);
    assert(views(fields@) =~= Seq::<Seq<char>>::empty());
    assert(current@ =~= Seq::<char>::empty());
    while i < line.len()
        invariant
            i <= line@.len(),
            fields_from(line@.skip(i as int), views(fields@), current@, escaped) == terse_fields(
                line@,
            ),
        decreases line@.len() - i,
    {
        let ch = line[i];
        proof {
            assert(line@.skip(i as int)[0] == ch);
            assert(line@.skip(i as int).drop_first() =~= line@.skip(i + 1));
        }
        if escaped {
            current.push(ch);
            escaped = false;
        } else if ch == '\\' {
            escaped = true;
        } else if ch == ':' {
            let done = current;
            current = Vec::new();
            proof {
                assert(views(fields@.push(done)) =~= views(fields@).push(done@));
                assert(current@ =~= Seq::<char>::empty());
            }
            fields.push(done);
        } else {
            current.push(ch);
        }
        i = i + 1;
    }
    proof {
        assert(line@.skip(i as int).len() == 0);
        assert(views(fields@.push(current)) =~= views(fields@).push(current@));
    }
    fields.push(current);
    fields
}

proof fn lemma_escape_read(v: Seq<char>, rest: Seq<char>, fields: Seq<Seq<char>>, current: Seq<char>)
    ensures
        fields_from(escape(v) + rest, fields, current, false) == fields_from(
            rest,
            fields,
            current + v,
            false,
        ),
    decreases v.len(),
{
    if v.len() == 0 {
        assert(escape(v) + rest =~= rest);
        assert(current + v =~= current);
    } else {
        let c = v[0];
        let tail = escape(v.drop_first()) + rest;
        lemma_escape_read(v.drop_first(), rest, fields, current.push(c));
        assert(current.push(c) + v.drop_first() =~= current + v);
        if c == '\\' || c == ':' {
            let s = escape(v) + rest;
            assert(s =~= seq!['\\', c] + tail);
            assert(s.drop_first() =~= seq![c] + tail);
            assert(s.drop_first().drop_first() =~= tail);
            assert(s[0] == '\\');
            assert(fields_from(s, fields, current, false) == fields_from(
                s.drop_first(),
                fields,
                current,
                true,
            ));
            assert(s.drop_first()[0] == c);
            assert(fields_from(s.drop_first(), fields, current, true) == fields_from(
                tail,
                fields,
                current.push(c),
                false,
            ));
        } else {
            let s = escape(v) + rest;
            assert(s =~= seq![c] + tail);
            assert(s.drop_first() =~= tail);
            assert(s[0] == c);
            assert(fields_from(s, fields, current, false) == fields_from(
                tail,
                fields,
                current.push(c),
                false,
            ));
        }
    }
}

proof fn lemma_line_read(fs: Seq<Seq<char>>, done: Seq<Seq<char>>)
    requires
        fs.len() >= 1,
    ensures
        fields_from(terse_line(fs), done, seq![], false) == done + fs,
    decreases fs.len(),
{
    if fs.len() == 1 {
        lemma_escape_read(fs[0], seq![], done, seq![]);
        assert(escape(fs[0]) + Seq::<char>::empty() =~= escape(fs[0]));
        assert(Seq::<char>::empty() + fs[0] =~= fs[0]);
        assert(done.push(fs[0]) =~= done + fs);
    } else {
        let rest = seq![':'] + terse_line(fs.drop_first());
        assert(terse_line(fs) =~= escape(fs[0]) + rest);
        lemma_escape_read(fs[0], rest, done, seq![]);
        assert(Seq::<char>::empty() + fs[0] =~= fs[0]);
        assert(rest.drop_first() =~= terse_line(fs.drop_first()));
        lemma_line_read(fs.drop_first(), done.push(fs[0]));
        assert(done.push(fs[0]) + fs.drop_first() =~= done + fs);
    }
}

/// Splitting a line that nmcli wrote from some fields gives back exactly
/// those fields, whatever `:` and `\` they contain.
pub proof fn law_split_terse_inverts_escaping(fields: Seq<Seq<char>>)
    requires
        fields.len() >= 1,
    ensures
        terse_fields(terse_line(fields)) == fields,
{
    lemma_line_read(fields, seq![]);
    assert(Seq::<Seq<char>>::empty() + fields =~= fields);
}

} // verus!
