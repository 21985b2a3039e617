//! The text that shows how two lockfiles differ, as pieces of text each with
//! the colour it is printed in.
use vstd::prelude::*;

use crate::deps::location::{Location, LocationModel};
use crate::deps::lockfile::{diffs_view, pins_view, LockFileDiff};
use crate::deps::registry::{DiffModel, ResolvedModel, ResolvedVersion, ResolvedVersionDiff};
use crate::package_name::package_name_text;
use crate::package_version::version_text;
use crate::text::concat_str;

verus! {

/// The colour a piece of text is printed in.
#[derive(Debug, Clone, Copy, PartialEq, Eq)]
pub enum Tone {
    Plain,
    Red,
    Green,
}

/// A piece of text and its colour.
#[derive(Debug)]
pub struct Piece {
    pub tone: Tone,
    pub text: String,
}

/// The pieces as colours and texts.
pub open spec fn pieces_view(v: Seq<Piece>) -> Seq<(Tone, Seq<char>)> {
    Seq::new(v.len(), |i: int| (v[i].tone, v[i].text@))
}

/// A location as text.
pub open spec fn location_text(l: LocationModel) -> Seq<char> {
    match l {
        LocationModel::Url(u) => u,
        LocationModel::Path(p) => p,
    }
}

/// `    <label>: <old in red> -> <new in green>` and a line break.
pub open spec fn change_line(label: Seq<char>, old: Seq<char>, new: Seq<char>) -> Seq<(Tone, Seq<char>)> {
    seq![
        (Tone::Plain, "    "@ + label + ": "@),
        (Tone::Red, old),
        (Tone::Plain, " -> "@),
        (Tone::Green, new),
        (Tone::Plain, "\n"@),
    ]
}

/// The lines of one changed package: its name, then each changed field.
pub open spec fn diff_report(d: DiffModel) -> Seq<(Tone, Seq<char>)> {
    seq![(Tone::Plain, "  "@ + package_name_text(d.name.0, d.name.1) + ":\n"@)] + match d.version {
        Some((a, b)) => change_line("version"@, version_text(a), version_text(b)),
        None => Seq::empty(),
    } + match d.pack_url {
        Some((a, b)) => change_line("pack_url"@, location_text(a), location_text(b)),
        None => Seq::empty(),
    } + match d.toml_url {
        Some((a, b)) => change_line("toml_url"@, location_text(a), location_text(b)),
        None => Seq::empty(),
    } + match d.integrity {
        Some((a, b)) => change_line("integrity"@, a, b),
        None => Seq::empty(),
    }
}

/// `  <name> <version>`, both in `tone`, and a line break.
pub open spec fn pin_line(tone: Tone, p: ResolvedModel) -> Seq<(Tone, Seq<char>)> {
    seq![
        (Tone::Plain, "  "@),
        (tone, package_name_text(p.name.0, p.name.1)),
        (Tone::Plain, " "@),
        (tone, version_text(p.version)),
        (Tone::Plain, "\n"@),
    ]
}

/// The reports of several changed packages, one after another.
pub open spec fn diff_reports(ds: Seq<DiffModel>) -> Seq<(Tone, Seq<char>)>
    decreases ds.len(),
{
    if ds.len() == 0 {
        Seq::empty()
    } else {
        diff_reports(ds.drop_last()) + diff_report(ds.last())
    }
}

/// The lines of several pins, one after another, in `tone`.
pub open spec fn pin_lines(tone: Tone, ps: Seq<ResolvedModel>) -> Seq<(Tone, Seq<char>)>
    decreases ps.len(),
{
    if ps.len() == 0 {
        Seq::empty()
    } else {
        pin_lines(tone, ps.drop_last()) + pin_line(tone, ps.last())
    }
}

/// How a lockfile difference is shown: `No changes detected` when there is
/// none; else the changed packages, the new ones in green and the removed ones
/// in red, each section under its heading and only where it has entries.
pub open spec fn lockfile_report(diffs: Seq<DiffModel>, new: Seq<ResolvedModel>, removed: Seq<ResolvedModel>) -> Seq<
    (Tone, Seq<char>),
> {
    if diffs.len() == 0 && new.len() == 0 && removed.len() == 0 {
        seq![(Tone::Plain, "No changes detected\n"@)]
    } else {
        (if diffs.len() > 0 {
            seq![(Tone::Plain, "Package changes:\n"@)] + diff_reports(diffs)
        } else {
            Seq::empty()
        }) + (if new.len() > 0 {
            seq![(Tone::Plain, "\nNew packages:\n"@)] + pin_lines(Tone::Green, new)
        } else {
            Seq::empty()
        }) + (if removed.len() > 0 {
            seq![(Tone::Plain, "\nRemoved packages:\n"@)] + pin_lines(Tone::Red, removed)
        } else {
            Seq::empty()
        })
    }
}

fn push_piece(out: &mut Vec<Piece>, tone: Tone, text: String)
    ensures
        pieces_view(final(out)@) == pieces_view(old(out)@).push((tone, text@)),
{
    let ghost before = out@;
    out.push(Piece { tone, text });
    proof {
        assert(pieces_view(out@) =~= pieces_view(before).push((tone, text@)));
    }
}

fn push_change(out: &mut Vec<Piece>, label: &str, before_text: String, after_text: String)
    ensures
        pieces_view(final(out)@) == pieces_view(old(out)@) + change_line(label@, before_text@, after_text@),
{
    let ghost before = pieces_view(out@);
    let head = concat_str("    ", label);
    push_piece(out, Tone::Plain, concat_str(head.as_str(), ": "));
    push_piece(out, Tone::Red, before_text);
    push_piece(out, Tone::Plain, " -> ".to_string());
    push_piece(out, Tone::Green, after_text);
    push_piece(out, Tone::Plain, "\n".to_string());
    proof {
        assert(pieces_view(out@) =~= before + change_line(label@, before_text@, after_text@));
    }
}

impl ResolvedVersionDiff {
    /// The lines that show this change.
    pub fn describe(&self, out: &mut Vec<Piece>)
        ensures
            pieces_view(final(out)@) == pieces_view(old(out)@) + diff_report(self@),
    {
        let ghost before = pieces_view(out@);
        let name = self.name.to_string();
        let head = concat_str("  ", name.as_str());
        push_piece(out, Tone::Plain, concat_str(head.as_str(), ":\n"));
        let ghost s1 = pieces_view(out@);
        if let Some((a, b)) = &self.version {
            push_change(out, "version", a.to_string(), b.to_string());
        }
        let ghost s2 = pieces_view(out@);
        if let Some((a, b)) = &self.pack_url {
            push_change(out, "pack_url", a.to_string(), b.to_string());
        }
        let ghost s3 = pieces_view(out@);
        if let Some((a, b)) = &self.toml_url {
            push_change(out, "toml_url", a.to_string(), b.to_string());
        }
        let ghost s4 = pieces_view(out@);
        if let Some((a, b)) = &self.integrity {
            push_change(out, "integrity", a.clone(), b.clone());
        }
        proof {
            let d = self@;
            let v = match d.version {
                Some((a, b)) => change_line("version"@, version_text(a), version_text(b)),
                None => Seq::empty(),
            };
            let p = match d.pack_url {
                Some((a, b)) => change_line("pack_url"@, location_text(a), location_text(b)),
                None => Seq::empty(),
            };
            let t = match d.toml_url {
                Some((a, b)) => change_line("toml_url"@, location_text(a), location_text(b)),
                None => Seq::empty(),
            };
            let g = match d.integrity {
                Some((a, b)) => change_line("integrity"@, a, b),
                None => Seq::empty(),
            };
            assert(s2 =~= s1 + v);
            assert(s3 =~= s1 + v + p);
            assert(s4 =~= s1 + v + p + t);
            assert(pieces_view(out@) =~= s1 + v + p + t + g);
            assert(s1 =~= before + seq![(Tone::Plain, "  "@ + package_name_text(d.name.0, d.name.1) + ":\n"@)]);
            assert(pieces_view(out@) =~= before + diff_report(d));
        }
    }
}

fn push_pin(out: &mut Vec<Piece>, tone: Tone, p: &ResolvedVersion)
    ensures
        pieces_view(final(out)@) == pieces_view(old(out)@) + pin_line(tone, p@),
{
    let ghost before = pieces_view(out@);
    push_piece(out, Tone::Plain, "  ".to_string());
    push_piece(out, tone, p.name.to_string());
    push_piece(out, Tone::Plain, " ".to_string());
    push_piece(out, tone, p.version.to_string());
    push_piece(out, Tone::Plain, "\n".to_string());
    proof {
        assert(pieces_view(out@) =~= before + pin_line(tone, p@));
    }
}

fn push_pins(out: &mut Vec<Piece>, tone: Tone, ps: &Vec<ResolvedVersion>)
    ensures
        pieces_view(final(out)@) == pieces_view(old(out)@) + pin_lines(tone, pins_view(ps@)),
{
    let ghost before = pieces_view(out@);
    let ghost all = pins_view(ps@);
    let mut i: usize = 0;
    proof {
        assert(all.take(0) =~= Seq::<ResolvedModel>::empty());
        assert(pieces_view(out@) =~= before + pin_lines(tone, all.take(0)));
    }
    while i < ps.len()
        invariant
            i <= ps.len(),
            all == pins_view(ps@),
            pieces_view(out@) == before + pin_lines(tone, all.take(i as int)),
        decreases ps.len() - i,
    {
        push_pin(out, tone, &ps[i]);
        proof {
            assert(all.take(i + 1).drop_last() =~= all.take(i as int));
            assert(all.take(i + 1).last() == ps@[i as int]@);
            assert(pieces_view(out@) =~= before + pin_lines(tone, all.take(i + 1)));
        }
        i = i + 1;
    }
    proof {
        assert(all.take(ps.len() as int) =~= all);
    }
}

impl LockFileDiff {
    /// The text that shows this difference, piece by piece.
    pub fn describe(&self) -> (r: Vec<Piece>)
        ensures
            pieces_view(r@) == lockfile_report(
                diffs_view(self.diffs@),
                pins_view(self.new@),
                pins_view(self.removed@),
            ),
    {
        let mut out: Vec<Piece> = Vec::new();
        proof {
            assert(pieces_view(out@) =~= Seq::empty());
        }
        if self.diffs.len() == 0 && self.new.len() == 0 && self.removed.len() == 0 {
            push_piece(&mut out, Tone::Plain, "No changes detected\n".to_string());
            return out;
        }
        let ghost ds = diffs_view(self.diffs@);
        if self.diffs.len() > 0 {
            push_piece(&mut out, Tone::Plain, "Package changes:\n".to_string());
            let ghost head = pieces_view(out@);
            let mut i: usize = 0;
            proof {
                assert(ds.take(0) =~= Seq::<DiffModel>::empty());
                assert(pieces_view(out@) =~= head + diff_reports(ds.take(0)));
            }
            while i < self.diffs.len()
                invariant
                    i <= self.diffs.len(),
                    ds == diffs_view(self.diffs@),
                    pieces_view(out@) == head + diff_reports(ds.take(i as int)),
                decreases self.diffs.len() - i,
            {
                self.diffs[i].describe(&mut out);
                proof {
                    assert(ds.take(i + 1).drop_last() =~= ds.take(i as int));
                    assert(ds.take(i + 1).last() == self.diffs@[i as int]@);
                    assert(pieces_view(out@) =~= head + diff_reports(ds.take(i + 1)));
                }
                i = i + 1;
            }
            proof {
                assert(ds.take(self.diffs.len() as int) =~= ds);
            }
        }
        let ghost s1 = pieces_view(out@);
        if self.new.len() > 0 {
            push_piece(&mut out, Tone::Plain, "\nNew packages:\n".to_string());
            push_pins(&mut out, Tone::Green, &self.new);
        }
        let ghost s2 = pieces_view(out@);
        if self.removed.len() > 0 {
            push_piece(&mut out, Tone::Plain, "\nRemoved packages:\n".to_string());
            push_pins(&mut out, Tone::Red, &self.removed);
        }
        proof {
            let a = if ds.len() > 0 {
                seq![(Tone::Plain, "Package changes:\n"@)] + diff_reports(ds)
            } else {
                Seq::empty()
            };
            let b = if self.new@.len() > 0 {
                seq![(Tone::Plain, "\nNew packages:\n"@)] + pin_lines(Tone::Green, pins_view(self.new@))
            } else {
                Seq::empty()
            };
            let c = if self.removed@.len() > 0 {
                seq![(Tone::Plain, "\nRemoved packages:\n"@)] + pin_lines(Tone::Red, pins_view(self.removed@))
            } else {
                Seq::empty()
            };
            assert(s1 =~= a);
            assert(s2 =~= a + b);
            assert(pieces_view(out@) =~= a + b + c);
        }
        out
    }
}

} // verus!
