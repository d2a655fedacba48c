//! The guard decision itself.

use vstd::prelude::*;

verus! {

/// ASCII lowercasing of one character; everything outside `A`..`Z` is kept.
pub open spec fn lower_char(c: char) -> char {
    if 'A' <= c && c <= 'Z' {
        (((c as u32) + 32) as u8) as char
    } else {
        c
    }
}

pub fn lower_char_exec(c: char) -> (r: char)
    ensures
        r == lower_char(c),
{
    if 'A' <= c && c <= 'Z' {
        (((c as u32) + 32) as u8) as char
    } else {
        c
    }
}

/// ASCII lowercasing of a whole character sequence.
pub open spec fn lower_seq(s: Seq<char>) -> Seq<char> {
    s.map_values(|c: char| lower_char(c))
}

/// The fixed allow-list, on already-lowercased extensions.
pub open spec fn allowed_lower(e: Seq<char>) -> bool {
    ||| e == "json"@
    ||| e == "xml"@
    ||| e == "xsl"@
    ||| e == "yaml"@
    ||| e == "yml"@
    ||| e == "txt"@
}

/// Whether an (optional) extension passes the allow-list: a missing one never
/// does, a present one is compared without regard to ASCII case.
pub open spec fn extension_permitted(ext: Option<Seq<char>>) -> bool {
    match ext {
        Some(e) => allowed_lower(lower_seq(e)),
        None => false,
    }
}

/// Whether a path's extension passes the allow-list.
pub open spec fn path_permitted(path: Seq<char>) -> bool {
    extension_permitted(crate::paths::spec_path_extension(path))
}

/// Whether `e`, lowercased, is in the allow-list; decided character by
/// character.
pub fn allowed_extension(e: &str) -> (r: bool)
    ensures
        r == allowed_lower(lower_seq(e@)),
{
    proof {
        reveal_strlit("json");
        reveal_strlit("xml");
        reveal_strlit("xsl");
        reveal_strlit("yaml");
        reveal_strlit("yml");
        reveal_strlit("txt");
        assert(lower_seq(e@).len() == e@.len());
        assert(forall|j: int| 0 <= j < e@.len() ==> lower_seq(e@)[j] == lower_char(#[trigger] e@[j]));
    }
    let n = e.unicode_len();
    if n == 3 {
        let c0 = lower_char_exec(e.get_char(0));
        let c1 = lower_char_exec(e.get_char(1));
        let c2 = lower_char_exec(e.get_char(2));
        let hit = (c0 == 'x' && c1 == 'm' && c2 == 'l') || (c0 == 'x' && c1 == 's' && c2 == 'l')
            || (c0 == 'y' && c1 == 'm' && c2 == 'l') || (c0 == 't' && c1 == 'x' && c2 == 't');
        proof {
            if hit {
                if c0 == 'x' && c1 == 'm' && c2 == 'l' {
                    assert(lower_seq(e@) =~= "xml"@);
                } else if c0 == 'x' && c1 == 's' && c2 == 'l' {
                    assert(lower_seq(e@) =~= "xsl"@);
                } else if c0 == 'y' && c1 == 'm' && c2 == 'l' {
                    assert(lower_seq(e@) =~= "yml"@);
                } else {
                    assert(lower_seq(e@) =~= "txt"@);
                }
            }
        }
        hit
    } else if n == 4 {
        let c0 = lower_char_exec(e.get_char(0));
        let c1 = lower_char_exec(e.get_char(1));
        let c2 = lower_char_exec(e.get_char(2));
        let c3 = lower_char_exec(e.get_char(3));
        let hit = (c0 == 'j' && c1 == 's' && c2 == 'o' && c3 == 'n') || (c0 == 'y' && c1 == 'a'
            && c2 == 'm' && c3 == 'l');
        proof {
            if hit {
                if c0 == 'j' {
                    assert(lower_seq(e@) =~= "json"@);
                } else {
                    assert(lower_seq(e@) =~= "yaml"@);
                }
            }
        }
        hit
    } else {
        false
    }
}

pub proof fn lemma_lower_char_idempotent(c: char)
    ensures
        lower_char(lower_char(c)) == lower_char(c),
{
}

pub proof fn lemma_lower_seq_idempotent(s: Seq<char>)
    ensures
        lower_seq(lower_seq(s)) == lower_seq(s),
{
    assert(lower_seq(lower_seq(s)) =~= lower_seq(s)) by {
        assert forall|i: int| 0 <= i < s.len() implies lower_seq(lower_seq(s))[i] == lower_seq(
            s,
        )[i] by {
            lemma_lower_char_idempotent(s[i]);
        }
    }
}

/// Extension matching is case-insensitive: an extension and its lowercased
/// form pass the allow-list alike.
pub proof fn lemma_extension_case_insensitive(e: Seq<char>)
    ensures
        extension_permitted(Some(e)) == extension_permitted(Some(lower_seq(e))),
{
    lemma_lower_seq_idempotent(e);
}

/// Whether `path`'s extension passes the allow-list.
pub fn path_extension_permitted(path: &str) -> (r: bool)
    ensures
        r == path_permitted(path@),
{
    match crate::paths::path_extension(path) {
        Some(e) => allowed_extension(e),
        None => false,
    }
}

/// The reason reported when the path does not name a regular file.
pub open spec fn not_a_file_reason() -> Seq<char> {
    "Keine Datei"@
}

/// The reason reported when the extension is missing or outside the
/// allow-list; it names the allowed set.
pub open spec fn extension_reason() -> Seq<char> {
    "Nur .json, .xml, .xsl, .yaml, .yml oder .txt erlaubt"@
}

/// The guard's verdict on a dropped file. `is_file` reports whether the path
/// names an existing regular file; the path itself supplies the extension.
/// The verdict is `Ok` exactly when both checks pass, and each failure
/// carries its own reason: a missing file is reported before the extension
/// is even looked at.
pub fn guard_dropped_file(path: &str, is_file: bool) -> (r: Result<(), String>)
    ensures
        !is_file ==> (r matches Err(m) && m@ == not_a_file_reason()),
        is_file && !path_permitted(path@) ==> (r matches Err(m) && m@ == extension_reason()),
        r is Ok <==> is_file && path_permitted(path@),
{
    if !is_file {
        return Err(String::from_str("Keine Datei"));
    }
    if !path_extension_permitted(path) {
        return Err(String::from_str("Nur .json, .xml, .xsl, .yaml, .yml oder .txt erlaubt"));
    }
    Ok(())
}

} // verus!
