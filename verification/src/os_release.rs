//! The os-release data model: the keys this crate reads from an
//! `os-release` file, as plain strings.

use vstd::prelude::*;

use crate::strutil;
use crate::Error;

verus! {

/// The relevant fields of an os-release document.
///
/// `id` and `name` are required by the format; the version and pretty
/// name are optional.
pub struct OsRelease {
    /// The `ID` field, e.g. `aerynos`.
    pub id: String,

    /// The `NAME` field, e.g. `AerynOS`.
    pub name: String,

    /// The `VERSION_ID` field, when present.
    pub version_id: Option<String>,

    /// The `PRETTY_NAME` field, when present.
    pub pretty_name: Option<String>,
}

/// A line assigns a value when it is not empty, is no comment, and
/// carries a `=`.
pub open spec fn line_assigns(l: Seq<char>) -> bool {
    l.len() > 0 && l[0] != '#' && strutil::first_index(l, '=') >= 0
}

/// The key of an assigning line.
pub open spec fn line_key(l: Seq<char>) -> Seq<char> {
    l.take(strutil::first_index(l, '='))
}

/// The value of an assigning line, with one pair of surrounding double
/// or single quotes removed.
pub open spec fn line_value(l: Seq<char>) -> Seq<char> {
    unquote(l.skip(strutil::first_index(l, '=') + 1))
}

/// Strip one pair of surrounding double or single quotes.
pub open spec fn unquote(v: Seq<char>) -> Seq<char> {
    if v.len() >= 2 && ((v[0] == '"' && v.last() == '"') || (v[0] == '\'' && v.last()
        == '\'')) {
        v.subrange(1, v.len() - 1)
    } else {
        v
    }
}

/// The value the last assignment of `key` leaves, shell-style.
pub open spec fn last_value(lines: Seq<Seq<char>>, key: Seq<char>) -> Option<Seq<char>>
    decreases lines.len(),
{
    if lines.len() == 0 {
        None
    } else if line_assigns(lines.last()) && line_key(lines.last()) == key {
        Some(line_value(lines.last()))
    } else {
        last_value(lines.drop_last(), key)
    }
}

/// Strip one pair of surrounding quotes from a value.
fn unquote_exec(v: &str) -> (r: String)
    ensures
        r@ == unquote(v@),
{
    let len = v.unicode_len();
    if len >= 2 {
        let first = v.get_char(0);
        let last = v.get_char(len - 1);
        if (first == '"' && last == '"') || (first == '\'' && last == '\'') {
            return strutil::substring_string(v, 1, len - 1);
        }
    }
    v.to_owned()
}

impl OsRelease {
    /// Decode an os-release document: `KEY=VALUE` lines, `#` comments,
    /// optionally quoted values, later assignments overriding earlier
    /// ones. The `ID` and `NAME` keys are required.
    pub fn from_text(text: &str) -> (r: Result<OsRelease, Error>)
        ensures
            r is Ok <==> (last_value(strutil::split_seq(text@, '\n'), "ID"@) is Some
                && last_value(strutil::split_seq(text@, '\n'), "NAME"@) is Some),
            r matches Ok(o) ==> {
                let lines = strutil::split_seq(text@, '\n');
                &&& Some(o.id@) == last_value(lines, "ID"@)
                &&& Some(o.name@) == last_value(lines, "NAME"@)
                &&& match o.version_id {
                    Some(v) => last_value(lines, "VERSION_ID"@) == Some(v@),
                    None => last_value(lines, "VERSION_ID"@) is None,
                }
                &&& match o.pretty_name {
                    Some(v) => last_value(lines, "PRETTY_NAME"@) == Some(v@),
                    None => last_value(lines, "PRETTY_NAME"@) is None,
                }
            },
            r matches Err(e) ==> e is InvalidFilesystem,
    {
        let ghost all_lines = strutil::split_seq(text@, '\n');
        let lines = strutil::split_char(text, '\n');
        let mut id: Option<String> = None;
        let mut name: Option<String> = None;
        let mut version_id: Option<String> = None;
        let mut pretty_name: Option<String> = None;
        let mut t: usize = 0;
        while t < lines.len()
            invariant
                t <= lines@.len(),
                all_lines.len() == lines@.len(),
                forall|i: int| 0 <= i < lines@.len() ==> (#[trigger] lines@[i])@ == all_lines[i],
                match id {
                    Some(v) => last_value(all_lines.take(t as int), "ID"@) == Some(v@),
                    None => last_value(all_lines.take(t as int), "ID"@) is None,
                },
                match name {
                    Some(v) => last_value(all_lines.take(t as int), "NAME"@) == Some(v@),
                    None => last_value(all_lines.take(t as int), "NAME"@) is None,
                },
                match version_id {
                    Some(v) => last_value(all_lines.take(t as int), "VERSION_ID"@) == Some(v@),
                    None => last_value(all_lines.take(t as int), "VERSION_ID"@) is None,
                },
                match pretty_name {
                    Some(v) => last_value(all_lines.take(t as int), "PRETTY_NAME"@) == Some(v@),
                    None => last_value(all_lines.take(t as int), "PRETTY_NAME"@) is None,
                },
            decreases lines@.len() - t,
        {
            let line: &String = &lines[t];
            let ghost lv = all_lines[t as int];
            proof {
                assert(all_lines.take(t as int + 1).drop_last() =~= all_lines.take(t as int));
                assert(all_lines.take(t as int + 1).last() == lv);
            }
            let llen = line.as_str().unicode_len();
            let mut relevant = llen > 0;
            if relevant {
                if line.as_str().get_char(0) == '#' {
                    relevant = false;
                }
            }
            if relevant {
                match strutil::find_char(line.as_str(), '=') {
                    Some(eq) => {
                        proof {
                            strutil::lemma_first_index(lv, '=');
                            let fi = strutil::first_index(lv, '=');
                            if fi < eq as int {
                                assert(lv[fi] == '=');
                            }
                            assert(fi == eq as int);
                        }
                        let key = strutil::substring_string(line.as_str(), 0, eq);
                        let raw = strutil::substring_string(line.as_str(), eq + 1, llen);
                        let value = unquote_exec(raw.as_str());
                        proof {
                            assert(key@ =~= line_key(lv));
                            assert(raw@ =~= lv.skip(strutil::first_index(lv, '=') + 1));
                            assert(value@ == line_value(lv));
                            assert(line_assigns(lv));
                        }
                        if strutil::str_eq(key.as_str(), "ID") {
                            id = Some(value);
                        } else if strutil::str_eq(key.as_str(), "NAME") {
                            name = Some(value);
                        } else if strutil::str_eq(key.as_str(), "VERSION_ID") {
                            version_id = Some(value);
                        } else if strutil::str_eq(key.as_str(), "PRETTY_NAME") {
                            pretty_name = Some(value);
                        }
                        proof {
                            reveal_strlit("ID");
                            reveal_strlit("NAME");
                            reveal_strlit("VERSION_ID");
                            reveal_strlit("PRETTY_NAME");
                        }
                    }
                    None => {
                        proof {
                            strutil::lemma_first_index(lv, '=');
                            assert(strutil::first_index(lv, '=') == -1);
                            assert(!line_assigns(lv));
                        }
                    }
                }
            } else {
                proof {
                    assert(!line_assigns(lv));
                }
            }
            t = t + 1;
        }
        proof {
            assert(all_lines.take(all_lines.len() as int) =~= all_lines);
        }
        match (id, name) {
            (Some(idv), Some(namev)) => Ok(
                OsRelease { id: idv, name: namev, version_id, pretty_name },
            ),
            _ => Err(Error::InvalidFilesystem),
        }
    }
}

impl Clone for OsRelease {
    /// An exact copy, field for field.
    fn clone(&self) -> (r: Self)
        ensures
            r == *self,
    {
        OsRelease {
            id: self.id.clone(),
            name: self.name.clone(),
            version_id: crate::kernel::clone_opt_string(&self.version_id),
            pretty_name: crate::kernel::clone_opt_string(&self.pretty_name),
        }
    }
}

} // verus!
