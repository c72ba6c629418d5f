//! Detection of a document's grammar from its file name.
use vstd::prelude::*;

verus! {

/// Supported grammar types for structured-document parsing.
#[derive(Clone, Copy, Debug, PartialEq, Eq, Structural)]
pub enum Grammar {
    /// JSON documents: spacing analysis is restricted to string content.
    Json,
    /// Markdown documents: spacing analysis is restricted to inline prose.
    Markdown,
}

/// The index where the final path component starts: right after the last
/// path separator, or zero.
pub open spec fn file_name_start(p: Seq<char>) -> int
    decreases p.len(),
{
    if p.len() == 0 {
        0
    } else if p.last() == '/' {
        p.len() as int
    } else {
        file_name_start(p.drop_last())
    }
}

/// The index of the last dot of a name, or minus one when it has none.
pub open spec fn last_dot(p: Seq<char>) -> int
    decreases p.len(),
{
    if p.len() == 0 {
        -1
    } else if p.last() == '.' {
        p.len() - 1
    } else {
        last_dot(p.drop_last())
    }
}

/// The grammar a path's extension selects: `Json` for a final component
/// whose extension is exactly `json`, `Markdown` for everything else.  A
/// name whose only dot is its first character has no extension.
pub open spec fn spec_grammar_from_path(p: Seq<char>) -> Grammar {
    let name = p.skip(file_name_start(p));
    let d = last_dot(name);
    if d > 0 && name.skip(d + 1) == "json"@ {
        Grammar::Json
    } else {
        Grammar::Markdown
    }
}

/// `file_name_start` only reads the prefix up to an unscanned suffix
/// that holds no separator.
proof fn lemma_file_name_start_take(p: Seq<char>, i: int)
    requires
        0 <= i <= p.len(),
        forall|k: int| i <= k < p.len() ==> p[k] != '/',
    ensures
        file_name_start(p) == file_name_start(p.take(i)),
    decreases p.len() - i,
{
    if i < p.len() {
        lemma_file_name_start_take(p, i + 1);
        assert(p.take(i + 1).drop_last() =~= p.take(i));
        assert(p.take(i + 1).last() == p[i]);
        assert(p.take(p.len() as int) =~= p);
    } else {
        assert(p.take(i) =~= p);
    }
}

/// `last_dot` only reads the prefix up to an unscanned suffix that holds
/// no dot.
proof fn lemma_last_dot_take(p: Seq<char>, i: int)
    requires
        0 <= i <= p.len(),
        forall|k: int| i <= k < p.len() ==> p[k] != '.',
    ensures
        last_dot(p) == last_dot(p.take(i)),
    decreases p.len() - i,
{
    if i < p.len() {
        lemma_last_dot_take(p, i + 1);
        assert(p.take(i + 1).drop_last() =~= p.take(i));
        assert(p.take(i + 1).last() == p[i]);
        assert(p.take(p.len() as int) =~= p);
    } else {
        assert(p.take(i) =~= p);
    }
}

/// Infers the grammar type from the file extension of the given path:
/// `json` selects JSON, everything else is read as Markdown.
pub fn grammar_from_path(path: &str) -> (r: Grammar)
    ensures
        r == spec_grammar_from_path(path@),
{
    let p = crate::graphemes::chars_vec(path);
    let ghost pv = path@;
    let p_len = p.len();
    let mut fs: usize = p_len;
    loop
        invariant_except_break
            0 <= fs <= pv.len(),
            p@ == pv,
            p_len == pv.len(),
            forall|k: int| fs <= k < pv.len() ==> pv[k] != '/',
        ensures
            0 <= fs <= pv.len(),
            forall|k: int| fs <= k < pv.len() ==> pv[k] != '/',
            fs == 0 || pv[fs - 1] == '/',
        decreases fs,
    {
        if fs == 0 {
            break ;
        }
        if p[fs - 1] == '/' {
            break ;
        }
        fs = fs - 1;
    }
    proof {
        lemma_file_name_start_take(pv, fs as int);
        if fs > 0 {
            assert(pv.take(fs as int).last() == pv[fs as int - 1]);
        }
        assert(file_name_start(pv) == fs as int);
    }
    let ghost name = pv.skip(fs as int);
    let mut de: usize = p_len;
    loop
        invariant_except_break
            fs <= de <= pv.len(),
            p@ == pv,
            p_len == pv.len(),
            name == pv.skip(fs as int),
            forall|k: int| de <= k < pv.len() ==> pv[k] != '.',
        ensures
            fs <= de <= pv.len(),
            forall|k: int| de <= k < pv.len() ==> pv[k] != '.',
            de == fs || pv[de - 1] == '.',
        decreases de,
    {
        if de == fs {
            break ;
        }
        if p[de - 1] == '.' {
            break ;
        }
        de = de - 1;
    }
    proof {
        assert forall|k: int| de - fs <= k < name.len() implies name[k] != '.' by {
            assert(name[k] == pv[k + fs]);
        }
        lemma_last_dot_take(name, de as int - fs as int);
        if de > fs {
            assert(name.take(de as int - fs as int).last() == pv[de as int - 1]);
            assert(last_dot(name) == de - fs - 1);
        } else {
            assert(name.take(0) =~= Seq::<char>::empty());
            assert(last_dot(name) == -1);
        }
    }
    if de - fs > 1 && p_len - de == 4 {
        let is_json = p[de] == 'j' && p[de + 1] == 's' && p[de + 2] == 'o' && p[de + 3] == 'n';
        proof {
            reveal_strlit("json");
            let d = last_dot(name);
            assert(name.skip(d + 1) =~= pv.skip(de as int));
            assert(pv.skip(de as int).len() == 4);
            assert(pv.skip(de as int)[0] == pv[de as int]);
            assert(pv.skip(de as int)[1] == pv[de as int + 1]);
            assert(pv.skip(de as int)[2] == pv[de as int + 2]);
            assert(pv.skip(de as int)[3] == pv[de as int + 3]);
            if is_json {
                assert(pv.skip(de as int) =~= "json"@);
            } else {
                assert(pv.skip(de as int) != "json"@);
            }
        }
        if is_json {
            Grammar::Json
        } else {
            Grammar::Markdown
        }
    } else {
        proof {
            reveal_strlit("json");
            let d = last_dot(name);
            if d > 0 {
                assert(name.skip(d + 1) =~= pv.skip(de as int));
                assert(name.skip(d + 1).len() == pv.len() - de);
            }
        }
        Grammar::Markdown
    }
}

} // verus!
