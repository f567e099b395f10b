//! Lists of roots given in one string, merged with roots given one by one.
use vstd::prelude::*;

use super::paths::{dedupe_paths, dedupe_spec, join_path, join_spec, views};
use crate::text::{chars_of, string_of, trim, trim_chars};

verus! {

pub open spec fn is_list_separator(c: char) -> bool {
    c == ':' || c == ';'
}

/// The pieces of `s` between separators, empty pieces included.
pub open spec fn pieces(s: Seq<char>) -> Seq<Seq<char>>
    decreases s.len(),
{
    if s.len() == 0 {
        seq![Seq::empty()]
    } else if is_list_separator(s.last()) {
        pieces(s.drop_last()).push(Seq::empty())
    } else {
        let p = pieces(s.drop_last());
        p.update(p.len() - 1, p.last().push(s.last()))
    }
}

/// The trimmed pieces that are not empty, in order.
pub open spec fn kept_pieces(ps: Seq<Seq<char>>) -> Seq<Seq<char>>
    decreases ps.len(),
{
    if ps.len() == 0 {
        Seq::empty()
    } else {
        let k = kept_pieces(ps.drop_last());
        if trim(ps.last()).len() == 0 {
            k
        } else {
            k.push(trim(ps.last()))
        }
    }
}

/// The entries of a `:`- or `;`-separated list, trimmed, empty ones left out.
pub open spec fn path_list(s: Seq<char>) -> Seq<Seq<char>> {
    kept_pieces(pieces(s))
}

proof fn lemma_pieces_nonempty(s: Seq<char>)
    ensures
        pieces(s).len() >= 1,
    decreases s.len(),
{
    if s.len() > 0 {
        lemma_pieces_nonempty(s.drop_last());
    }
}

/// The entries of a list of paths separated by `:` or `;`.
pub fn split_path_list(value: &str) -> (r: Vec<String>)
    ensures
        views(r@) == path_list(value@),
{
    let c = chars_of(value);
    let mut out: Vec<String> = Vec::new();
    let mut current: Vec<char> = Vec::new();
    let mut i: usize = 0;
    proof {
        assert(c@.take(0) =~= Seq::<char>::empty());
    }
    while i < c.len()
        invariant
            i <= c@.len(),
            c@ == value@,
            pieces(c@.take(i as int)).len() >= 1,
            current@ == pieces(c@.take(i as int)).last(),
            views(out@) == kept_pieces(pieces(c@.take(i as int)).drop_last()),
        decreases c.len() - i,
    {
        let ch = c[i];
        let ghost pre = c@.take(i as int);
        proof {
            assert(c@.take(i + 1).drop_last() =~= pre);
            assert(c@.take(i + 1).last() == ch);
            lemma_pieces_nonempty(pre);
        }
        if ch == ':' || ch == ';' {
            let t = trim_chars(current.as_slice());
            proof {
                let ps = pieces(pre);
                assert(pieces(c@.take(i + 1)).drop_last() =~= ps);
                assert(ps.drop_last().push(ps.last()) =~= ps);
            }
            if t.len() > 0 {
                out.push(string_of(t.as_slice()));
                proof {
                    assert(views(out@) =~= views(out@.drop_last()).push(t@));
                }
            }
            current = Vec::new();
            proof {
                assert(current@ =~= Seq::<char>::empty());
            }
        } else {
            current.push(ch);
            proof {
                let ps = pieces(pre);
                let ps2 = pieces(c@.take(i + 1));
                assert(ps2.drop_last() =~= ps.drop_last());
            }
        }
        i += 1;
    }
    let t = trim_chars(current.as_slice());
    proof {
        assert(c@.take(c@.len() as int) =~= c@);
        let ps = pieces(c@);
        assert(ps.drop_last().push(ps.last()) =~= ps);
    }
    if t.len() > 0 {
        out.push(string_of(t.as_slice()));
        proof {
            assert(views(out@) =~= views(out@.drop_last()).push(t@));
        }
    }
    out
}

/// The roots listed in an environment setting (when given), then the
/// explicit ones, each kept only at its first occurrence.
pub fn merge_path_list(explicit: &[String], env_value: Option<&str>) -> (r: Vec<String>)
    ensures
        views(r@) == dedupe_spec(
            match env_value {
                Some(v) => path_list(v@),
                None => Seq::empty(),
            } + views(explicit@),
        ),
{
    let mut out: Vec<String> = match env_value {
        Some(v) => split_path_list(v),
        None => Vec::new(),
    };
    let ghost head = views(out@);
    let mut i: usize = 0;
    while i < explicit.len()
        invariant
            i <= explicit@.len(),
            views(out@) == head + views(explicit@.take(i as int)),
        decreases explicit.len() - i,
    {
        let ghost before = out@;
        let item = explicit[i].clone();
        out.push(item);
        proof {
            assert(out@ == before.push(explicit@[i as int]));
            assert(explicit@.take(i + 1) =~= explicit@.take(i as int).push(explicit@[i as int]));
            assert(views(explicit@.take(i + 1)) =~= views(explicit@.take(i as int)).push(explicit@[i as int]@));
            assert(views(out@) =~= views(before).push(explicit@[i as int]@));
            assert(views(out@) =~= head + views(explicit@.take(i + 1)));
        }
        i += 1;
    }
    proof {
        assert(explicit@.take(explicit@.len() as int) =~= explicit@);
    }
    dedupe_paths(out)
}


/// `base` joined with each of `parts` in turn.
pub open spec fn joined_all(base: Seq<char>, parts: Seq<Seq<char>>) -> Seq<char>
    decreases parts.len(),
{
    if parts.len() == 0 {
        base
    } else {
        join_spec(joined_all(base, parts.drop_last()), parts.last())
    }
}

pub open spec fn mac_steam_parts() -> Seq<Seq<char>> {
    seq!["Library"@, "Application Support"@, "Steam"@, "steamapps"@, "common"@, "RimWorld"@]
}

pub open spec fn linux_steam_parts() -> Seq<Seq<char>> {
    seq![".local"@, "share"@, "Steam"@, "steamapps"@, "common"@, "RimWorld"@]
}

/// The usual Steam install folders of the game under the home folder
/// `home`: macOS's, then Linux's; none without a home folder.
pub fn rimworld_candidates(home: Option<&str>) -> (r: Vec<String>)
    ensures
        views(r@) == match home {
            Some(h) => seq![joined_all(h@, mac_steam_parts()), joined_all(h@, linux_steam_parts())],
            None => Seq::empty(),
        },
{
    let mut out: Vec<String> = Vec::new();
    match home {
        None => {
            proof {
                assert(views(out@) =~= Seq::<Seq<char>>::empty());
            }
        },
        Some(h) => {
            let a = join_path(h, "Library");
            let a = join_path(a.as_str(), "Application Support");
            let a = join_path(a.as_str(), "Steam");
            let a = join_path(a.as_str(), "steamapps");
            let a = join_path(a.as_str(), "common");
            let a = join_path(a.as_str(), "RimWorld");
            let b = join_path(h, ".local");
            let b = join_path(b.as_str(), "share");
            let b = join_path(b.as_str(), "Steam");
            let b = join_path(b.as_str(), "steamapps");
            let b = join_path(b.as_str(), "common");
            let b = join_path(b.as_str(), "RimWorld");
            proof {
                let m = mac_steam_parts();
                let l = linux_steam_parts();
                assert(m.take(1).drop_last() =~= m.take(0));
                assert(m.take(2).drop_last() =~= m.take(1));
                assert(m.take(3).drop_last() =~= m.take(2));
                assert(m.take(4).drop_last() =~= m.take(3));
                assert(m.take(5).drop_last() =~= m.take(4));
                assert(m.take(6) =~= m);
                assert(m.take(5) =~= m.drop_last());
                assert(m.take(0).len() == 0);
                assert(joined_all(h@, m.take(0)) == h@);
                assert(m.take(1).last() == "Library"@);
                assert(joined_all(h@, m.take(1)) == join_spec(h@, "Library"@));
                assert(joined_all(h@, m.take(2)) == join_spec(joined_all(h@, m.take(1)), "Application Support"@));
                assert(joined_all(h@, m.take(3)) == join_spec(joined_all(h@, m.take(2)), "Steam"@));
                assert(joined_all(h@, m.take(4)) == join_spec(joined_all(h@, m.take(3)), "steamapps"@));
                assert(joined_all(h@, m.take(5)) == join_spec(joined_all(h@, m.take(4)), "common"@));
                assert(l.take(1).drop_last() =~= l.take(0));
                assert(l.take(2).drop_last() =~= l.take(1));
                assert(l.take(3).drop_last() =~= l.take(2));
                assert(l.take(4).drop_last() =~= l.take(3));
                assert(l.take(5).drop_last() =~= l.take(4));
                assert(l.take(6) =~= l);
                assert(l.take(5) =~= l.drop_last());
                assert(l.take(0).len() == 0);
                assert(joined_all(h@, l.take(0)) == h@);
                assert(l.take(1).last() == ".local"@);
                assert(joined_all(h@, l.take(1)) == join_spec(h@, ".local"@));
                assert(joined_all(h@, l.take(2)) == join_spec(joined_all(h@, l.take(1)), "share"@));
                assert(joined_all(h@, l.take(3)) == join_spec(joined_all(h@, l.take(2)), "Steam"@));
                assert(joined_all(h@, l.take(4)) == join_spec(joined_all(h@, l.take(3)), "steamapps"@));
                assert(joined_all(h@, l.take(5)) == join_spec(joined_all(h@, l.take(4)), "common"@));
            }
            out.push(a);
            out.push(b);
            proof {
                assert(views(out@) =~= seq![joined_all(h@, mac_steam_parts()), joined_all(h@, linux_steam_parts())]);
            }
        },
    }
    out
}

pub open spec fn index_file_parts() -> Seq<Seq<char>> {
    seq![".cache"@, "stitchlands-redux"@, "packed_texture_index_v2.txt"@]
}

/// Where the packed texture index is cached: the trimmed path set in the
/// environment when it is not empty; else under the home folder's
/// `.cache`; else a file in the working folder.
pub fn packed_index_path(env_value: Option<&str>, home: Option<&str>) -> (r: String)
    ensures
        r@ == ({
            let from_env = match env_value {
                Some(v) => if trim(v@).len() > 0 {
                    Some(trim(v@))
                } else {
                    None
                },
                None => None,
            };
            match from_env {
                Some(p) => p,
                None => match home {
                    Some(h) => joined_all(h@, index_file_parts()),
                    None => ".stitchlands-packed-index-v2.txt"@,
                },
            }
        }),
{
    if let Some(v) = env_value {
        let t = trim_chars(chars_of(v).as_slice());
        if t.len() > 0 {
            return string_of(t.as_slice());
        }
    }
    match home {
        Some(h) => {
            let p = join_path(h, ".cache");
            let p = join_path(p.as_str(), "stitchlands-redux");
            let p = join_path(p.as_str(), "packed_texture_index_v2.txt");
            proof {
                let f = index_file_parts();
                assert(f.take(1).drop_last() =~= f.take(0));
                assert(f.take(2).drop_last() =~= f.take(1));
                assert(f.take(3) =~= f);
                assert(f.take(2) =~= f.drop_last());
                assert(f.take(0).len() == 0);
                assert(joined_all(h@, f.take(0)) == h@);
                assert(f.take(1).last() == ".cache"@);
                assert(joined_all(h@, f.take(1)) == join_spec(h@, ".cache"@));
                assert(joined_all(h@, f.take(2)) == join_spec(joined_all(h@, f.take(1)), "stitchlands-redux"@));
            }
            p
        },
        None => {
            let mut out: Vec<char> = Vec::new();
            crate::text::push_str(&mut out, ".stitchlands-packed-index-v2.txt");
            string_of(out.as_slice())
        },
    }
}

} // verus!
