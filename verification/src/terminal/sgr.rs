use vstd::prelude::*;

use crate::terminal::{
    ansi_bright, ansi_color, color_from_256, default_bg, default_fg, model_wf, spec_ansi_bright,
    spec_ansi_color, spec_color_from_256, spec_default_bg, spec_default_fg, Color, GridModel,
    TerminalGrid,
};

verus! {

/// The first value of a parameter group, 0 for an empty group.
pub open spec fn first_or_zero(g: Seq<u16>) -> u16 {
    if g.len() > 0 {
        g[0]
    } else {
        0
    }
}

/// The first value of parameter group `i`, 0 where there is none.
pub open spec fn param_or_zero(ps: Seq<Seq<u16>>, i: int) -> u16 {
    if 0 <= i < ps.len() {
        first_or_zero(ps[i])
    } else {
        0
    }
}

/// The colour that an extended colour sequence starting at group `i` (a 38 or 48) selects, and
/// the index of the first group after it: `;5;n` picks palette entry `n`, `;2;r;g;b` a direct
/// colour (missing components are 0, each truncated to a byte); any other mode selects nothing.
pub open spec fn extended_color(ps: Seq<Seq<u16>>, i: int) -> (Option<Color>, int) {
    if i + 1 >= ps.len() {
        (None, ps.len() as int)
    } else {
        let mode = first_or_zero(ps[i + 1]);
        if mode == 5 {
            if i + 2 < ps.len() {
                (Some(spec_color_from_256(first_or_zero(ps[i + 2]))), i + 3)
            } else {
                (None, ps.len() as int)
            }
        } else if mode == 2 {
            (
                Some(
                    Color {
                        r: param_or_zero(ps, i + 2) as u8,
                        g: param_or_zero(ps, i + 3) as u8,
                        b: param_or_zero(ps, i + 4) as u8,
                    },
                ),
                if i + 5 < ps.len() {
                    i + 5
                } else {
                    ps.len() as int
                },
            )
        } else {
            (None, i + 2)
        }
    }
}

/// The pen reset to the default colours without attributes.
pub open spec fn reset_pen(m: GridModel) -> GridModel {
    GridModel {
        fg: spec_default_fg(),
        bg: spec_default_bg(),
        bold: false,
        italic: false,
        underline: false,
        ..m
    }
}

/// The pen after one single-group rendition code.
pub open spec fn apply_code(m: GridModel, code: u16) -> GridModel {
    if code == 0 {
        reset_pen(m)
    } else if code == 1 {
        GridModel { bold: true, ..m }
    } else if code == 2 || code == 22 {
        GridModel { bold: false, ..m }
    } else if code == 3 {
        GridModel { italic: true, ..m }
    } else if code == 4 {
        GridModel { underline: true, ..m }
    } else if code == 7 {
        GridModel { fg: m.bg, bg: m.fg, ..m }
    } else if code == 23 {
        GridModel { italic: false, ..m }
    } else if code == 24 {
        GridModel { underline: false, ..m }
    } else if 30 <= code <= 37 {
        GridModel { fg: spec_ansi_color(code - 30), ..m }
    } else if code == 39 {
        GridModel { fg: spec_default_fg(), ..m }
    } else if 40 <= code <= 47 {
        GridModel { bg: spec_ansi_color(code - 40), ..m }
    } else if code == 49 {
        GridModel { bg: spec_default_bg(), ..m }
    } else if 90 <= code <= 97 {
        GridModel { fg: spec_ansi_bright(code - 90), ..m }
    } else if 100 <= code <= 107 {
        GridModel { bg: spec_ansi_bright(code - 100), ..m }
    } else {
        m
    }
}

/// The pen after the rendition groups from index `i` on.
pub open spec fn sgr_from(m: GridModel, ps: Seq<Seq<u16>>, i: int) -> GridModel
    decreases ps.len() - i,
{
    if i < 0 || i >= ps.len() {
        m
    } else {
        let code = first_or_zero(ps[i]);
        if code == 38 || code == 48 {
            let (c, next) = extended_color(ps, i);
            let m2 = match c {
                Some(col) => if code == 38 {
                    GridModel { fg: col, ..m }
                } else {
                    GridModel { bg: col, ..m }
                },
                None => m,
            };
            if next > i {
                sgr_from(m2, ps, next)
            } else {
                m2
            }
        } else {
            sgr_from(apply_code(m, code), ps, i + 1)
        }
    }
}

/// `b` is `a` with only the pen (colours and attributes) changed.
pub open spec fn pen_only_changed(a: GridModel, b: GridModel) -> bool {
    b == (GridModel { fg: b.fg, bg: b.bg, bold: b.bold, italic: b.italic, underline: b.underline, ..a })
}

/// Rendition codes change the pen and nothing else.
pub proof fn lemma_sgr_from_pen_only(m: GridModel, ps: Seq<Seq<u16>>, i: int)
    ensures
        pen_only_changed(m, sgr_from(m, ps, i)),
    decreases ps.len() - i,
{
    if 0 <= i < ps.len() {
        let code = first_or_zero(ps[i]);
        if code == 38 || code == 48 {
            let (c, next) = extended_color(ps, i);
            let m2 = match c {
                Some(col) => if code == 38 {
                    GridModel { fg: col, ..m }
                } else {
                    GridModel { bg: col, ..m }
                },
                None => m,
            };
            if next > i {
                lemma_sgr_from_pen_only(m2, ps, next);
            }
        } else {
            lemma_sgr_from_pen_only(apply_code(m, code), ps, i + 1);
        }
    }
}

/// The grid after a select-graphic-rendition sequence: no groups at all resets the pen.
pub open spec fn sgr_model(m: GridModel, ps: Seq<Seq<u16>>) -> GridModel {
    if ps.len() == 0 {
        reset_pen(m)
    } else {
        sgr_from(m, ps, 0)
    }
}

/// The parameter groups by their values.
pub open spec fn params_view(ps: Seq<Vec<u16>>) -> Seq<Seq<u16>> {
    ps.map_values(|g: Vec<u16>| g@)
}

/// The first value of a group, 0 for an empty group.
pub fn group_first(g: &Vec<u16>) -> (v: u16)
    ensures
        v == first_or_zero(g@),
{
    if g.len() > 0 {
        g[0]
    } else {
        0
    }
}

/// The first value of group `i`, 0 where there is none.
pub fn param_value(ps: &Vec<Vec<u16>>, i: usize) -> (v: u16)
    ensures
        v == param_or_zero(params_view(ps@), i as int),
{
    if i < ps.len() {
        group_first(&ps[i])
    } else {
        0
    }
}

/// The colour of the extended colour sequence at group `i`, and where the next group starts.
fn read_extended_color(ps: &Vec<Vec<u16>>, i: usize) -> (res: (Option<Color>, usize))
    requires
        i < ps.len(),
    ensures
        res.0 == extended_color(params_view(ps@), i as int).0,
        res.1 as int == extended_color(params_view(ps@), i as int).1,
{
    let len = ps.len();
    if i + 1 >= len {
        (None, len)
    } else {
        let mode = group_first(&ps[i + 1]);
        if mode == 5 {
            if i + 2 < len {
                (Some(color_from_256(group_first(&ps[i + 2]))), i + 3)
            } else {
                (None, len)
            }
        } else if mode == 2 {
            let rest = len - i;
            let r = if rest > 2 {
                group_first(&ps[i + 2])
            } else {
                0
            };
            let g = if rest > 3 {
                group_first(&ps[i + 3])
            } else {
                0
            };
            let b = if rest > 4 {
                group_first(&ps[i + 4])
            } else {
                0
            };
            let r = #[verifier::truncate] (r as u8);
            let g = #[verifier::truncate] (g as u8);
            let b = #[verifier::truncate] (b as u8);
            let next = if rest > 5 {
                i + 5
            } else {
                len
            };
            (Some(Color { r, g, b }), next)
        } else {
            (None, i + 2)
        }
    }
}

impl TerminalGrid {
    /// Applies one single-group rendition code to the pen.
    fn apply_sgr_code(&mut self, code: u16)
        ensures
            final(self).model() == apply_code(old(self).model(), code),
    {
        if code == 0 {
            self.reset_attributes();
        } else if code == 1 {
            self.cur_bold = true;
        } else if code == 2 || code == 22 {
            self.cur_bold = false;
        } else if code == 3 {
            self.cur_italic = true;
        } else if code == 4 {
            self.cur_underline = true;
        } else if code == 7 {
            let fg = self.cur_fg;
            self.cur_fg = self.cur_bg;
            self.cur_bg = fg;
        } else if code == 23 {
            self.cur_italic = false;
        } else if code == 24 {
            self.cur_underline = false;
        } else if 30 <= code && code <= 37 {
            self.cur_fg = ansi_color(code - 30);
        } else if code == 39 {
            self.cur_fg = default_fg();
        } else if 40 <= code && code <= 47 {
            self.cur_bg = ansi_color(code - 40);
        } else if code == 49 {
            self.cur_bg = default_bg();
        } else if 90 <= code && code <= 97 {
            self.cur_fg = ansi_bright(code - 90);
        } else if 100 <= code && code <= 107 {
            self.cur_bg = ansi_bright(code - 100);
        }
    }

    /// Sets the pen from a select-graphic-rendition sequence (CSI ... m).
    pub fn handle_sgr(&mut self, params: &Vec<Vec<u16>>)
        ensures
            final(self).model() == sgr_model(old(self).model(), params_view(params@)),
            model_wf(old(self).model()) ==> model_wf(final(self).model()),
    {
        let ghost ps = params_view(params@);
        if params.len() == 0 {
            self.reset_attributes();
            return;
        }
        let ghost m0 = self.model();
        let mut i: usize = 0;
        while i < params.len()
            invariant
                ps == params_view(params@),
                ps.len() == params@.len(),
                i <= params.len(),
                sgr_from(m0, ps, 0) == sgr_from(self.model(), ps, i as int),
                self.model().cells == m0.cells,
                model_wf(m0) ==> model_wf(self.model()),
            decreases params.len() - i,
        {
            let code = group_first(&params[i]);
            assert(code == first_or_zero(ps[i as int]));
            if code == 38 || code == 48 {
                let (c, next) = read_extended_color(params, i);
                match c {
                    Some(col) => {
                        if code == 38 {
                            self.cur_fg = col;
                        } else {
                            self.cur_bg = col;
                        }
                    },
                    None => {},
                }
                i = next;
            } else {
                self.apply_sgr_code(code);
                i += 1;
            }
        }
    }
}

} // verus!
