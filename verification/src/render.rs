//! Textual rendering of a forest: the header `FOREST <width> <height>`
//! followed by one row of single-character cell symbols per grid row.

use vstd::prelude::*;

use crate::forest::Forest;
use crate::forest::TreeState;

verus! {

/// The symbol of one cell state: `^` alive, `#` burning, `_` burned.
pub open spec fn tree_char(t: TreeState) -> char {
    match t {
        TreeState::Alive => '^',
        TreeState::Burning => '#',
        TreeState::Burned => '_',
    }
}

/// The decimal digit character for `d < 10`.
pub open spec fn digit_char(d: nat) -> char {
    if d == 0 {
        '0'
    } else if d == 1 {
        '1'
    } else if d == 2 {
        '2'
    } else if d == 3 {
        '3'
    } else if d == 4 {
        '4'
    } else if d == 5 {
        '5'
    } else if d == 6 {
        '6'
    } else if d == 7 {
        '7'
    } else if d == 8 {
        '8'
    } else {
        '9'
    }
}

/// The decimal representation of `n`, most significant digit first, with no
/// leading zero except for `n == 0` itself.
pub open spec fn dec_chars(n: nat) -> Seq<char>
    decreases n,
{
    if n < 10 {
        seq![digit_char(n)]
    } else {
        dec_chars(n / 10) + seq![digit_char(n % 10)]
    }
}

/// The digit characters of `ds[len-1], ds[len-2], ..., ds[i]`, in that
/// order: what emitting a least-significant-first digit buffer from its top
/// index down to `i` produces.
pub open spec fn chars_from(ds: Seq<usize>, i: int) -> Seq<char>
    decreases ds.len() - i,
{
    if i < 0 || i >= ds.len() {
        Seq::empty()
    } else {
        chars_from(ds, i + 1) + seq![digit_char(ds[i] as nat)]
    }
}

/// Pushing a digit on a least-significant-first buffer prepends its
/// character to the emitted sequence.
proof fn lemma_chars_from_push(ds: Seq<usize>, d: usize, i: int)
    requires
        0 <= i <= ds.len(),
    ensures
        chars_from(ds.push(d), i) == seq![digit_char(d as nat)] + chars_from(ds, i),
    decreases ds.len() - i,
{
    let e = ds.push(d);
    if i == ds.len() {
        assert(chars_from(e, i + 1) =~= Seq::<char>::empty());
        assert(chars_from(ds, i) =~= Seq::<char>::empty());
        assert(e[i] == d);
        assert(chars_from(e, i) =~= seq![digit_char(d as nat)] + chars_from(ds, i));
    } else {
        lemma_chars_from_push(ds, d, i + 1);
        assert(e[i] == ds[i]);
        assert(chars_from(e, i) =~= seq![digit_char(d as nat)] + chars_from(ds, i));
    }
}

/// The decimal digit `d` as a one-character string.
fn digit_str(d: usize) -> (s: &'static str)
    requires
        d < 10,
    ensures
        s@ == seq![digit_char(d as nat)],
{
    match d {
        0 => {
            proof {
                reveal_strlit("0");
                assert("0"@ =~= seq![digit_char(0)]);
            }
            "0"
        },
        1 => {
            proof {
                reveal_strlit("1");
                assert("1"@ =~= seq![digit_char(1)]);
            }
            "1"
        },
        2 => {
            proof {
                reveal_strlit("2");
                assert("2"@ =~= seq![digit_char(2)]);
            }
            "2"
        },
        3 => {
            proof {
                reveal_strlit("3");
                assert("3"@ =~= seq![digit_char(3)]);
            }
            "3"
        },
        4 => {
            proof {
                reveal_strlit("4");
                assert("4"@ =~= seq![digit_char(4)]);
            }
            "4"
        },
        5 => {
            proof {
                reveal_strlit("5");
                assert("5"@ =~= seq![digit_char(5)]);
            }
            "5"
        },
        6 => {
            proof {
                reveal_strlit("6");
                assert("6"@ =~= seq![digit_char(6)]);
            }
            "6"
        },
        7 => {
            proof {
                reveal_strlit("7");
                assert("7"@ =~= seq![digit_char(7)]);
            }
            "7"
        },
        8 => {
            proof {
                reveal_strlit("8");
                assert("8"@ =~= seq![digit_char(8)]);
            }
            "8"
        },
        _ => {
            proof {
                reveal_strlit("9");
                assert("9"@ =~= seq![digit_char(9)]);
            }
            "9"
        },
    }
}

/// `n` in decimal, most significant digit first.
pub fn usize_to_string(n: usize) -> (s: String)
    ensures
        s@ == dec_chars(n as nat),
{
    if n == 0 {
        proof {
            reveal_strlit("0");
            assert("0"@ =~= dec_chars(0));
        }
        return String::from_str("0");
    }
    let ghost nn = n as nat;
    let mut digits: Vec<usize> = Vec::new();
    let mut m: usize = n;
    proof {
        assert(chars_from(digits@, 0) =~= Seq::<char>::empty());
        assert(dec_chars(nn) =~= dec_chars(m as nat) + chars_from(digits@, 0));
    }
    while m > 0
        invariant
            forall|k: int| 0 <= k < digits@.len() ==> digits@[k] < 10,
            m > 0 ==> dec_chars(nn) == dec_chars(m as nat) + chars_from(digits@, 0),
            m == 0 ==> dec_chars(nn) == chars_from(digits@, 0),
        decreases m,
    {
        let ghost m0 = m as nat;
        let ghost ds0 = digits@;
        let d = m % 10;
        digits.push(d);
        m = m / 10;
        proof {
            lemma_chars_from_push(ds0, d, 0);
            if m0 < 10 {
                assert(dec_chars(m0) == seq![digit_char(m0)]);
                assert(dec_chars(nn) =~= chars_from(digits@, 0));
            } else {
                assert(dec_chars(m0) == dec_chars(m0 / 10) + seq![digit_char(m0 % 10)]);
                assert(dec_chars(nn) =~= dec_chars(m as nat) + chars_from(digits@, 0));
            }
        }
    }
    let mut s = String::new();
    let mut i = digits.len();
    proof {
        assert(s@ =~= chars_from(digits@, digits@.len() as int));
    }
    while i > 0
        invariant
            i <= digits@.len(),
            forall|k: int| 0 <= k < digits@.len() ==> digits@[k] < 10,
            dec_chars(nn) == chars_from(digits@, 0),
            s@ == chars_from(digits@, i as int),
        decreases i,
    {
        i = i - 1;
        let ds = digit_str(digits[i]);
        s.append(ds);
        proof {
            assert(s@ =~= chars_from(digits@, i as int));
        }
    }
    s
}

/// The header line `FOREST <width> <height>` with its trailing newline.
pub open spec fn render_header(width: nat, height: nat) -> Seq<char> {
    seq!['F', 'O', 'R', 'E', 'S', 'T', ' '] + dec_chars(width) + seq![' '] + dec_chars(height)
        + seq!['\n']
}

/// Row `y` of the grid as cell symbols, with its trailing newline.
pub open spec fn render_row(trees: Seq<TreeState>, width: int, y: int) -> Seq<char> {
    Seq::new(width as nat, |x: int| tree_char(trees[width * y + x])) + seq!['\n']
}

/// The first `rows` grid rows, top to bottom.
pub open spec fn render_rows(trees: Seq<TreeState>, width: int, rows: nat) -> Seq<char>
    decreases rows,
{
    if rows == 0 {
        Seq::empty()
    } else {
        render_rows(trees, width, (rows - 1) as nat) + render_row(trees, width, rows - 1)
    }
}

/// The full textual representation of a grid.
pub open spec fn render_spec(trees: Seq<TreeState>, width: nat, height: nat) -> Seq<char> {
    render_header(width, height) + render_rows(trees, width as int, height)
}

impl TreeState {
    /// This state's display symbol as a one-character string.
    pub fn symbol(&self) -> (s: &'static str)
        ensures
            s@ == seq![tree_char(*self)],
    {
        match self {
            TreeState::Alive => {
                proof {
                    reveal_strlit("^");
                    assert("^"@ =~= seq![tree_char(TreeState::Alive)]);
                }
                "^"
            },
            TreeState::Burning => {
                proof {
                    reveal_strlit("#");
                    assert("#"@ =~= seq![tree_char(TreeState::Burning)]);
                }
                "#"
            },
            TreeState::Burned => {
                proof {
                    reveal_strlit("_");
                    assert("_"@ =~= seq![tree_char(TreeState::Burned)]);
                }
                "_"
            },
        }
    }
}

impl Forest {
    /// The textual representation of this forest: the header
    /// `FOREST <width> <height>`, then `height` lines of `width` symbols.
    pub fn render(&self) -> (s: String)
        requires
            self.wf(),
        ensures
            s@ == render_spec(self.trees@, self.spec_width() as nat, self.spec_height() as nat),
    {
        let ghost w = self.width as int;
        let ghost h = self.height as int;
        let n = self.trees.len();
        proof {
            assert(w * h == n);
        }
        let mut s = String::new();
        s.append("FOREST ");
        let ws = usize_to_string(self.width);
        s.append(ws.as_str());
        s.append(" ");
        let hs = usize_to_string(self.height);
        s.append(hs.as_str());
        s.append("\n");
        proof {
            reveal_strlit("FOREST ");
            reveal_strlit(" ");
            reveal_strlit("\n");
            assert(s@ =~= render_header(w as nat, h as nat));
            assert(s@ =~= render_header(w as nat, h as nat) + render_rows(self.trees@, w, 0));
        }
        let mut y: usize = 0;
        while y < self.height
            invariant
                self.wf(),
                w == self.spec_width(),
                h == self.spec_height(),
                self.trees@.len() == n,
                y <= h,
                s@ == render_header(w as nat, h as nat) + render_rows(self.trees@, w, y as nat),
            decreases h - y,
        {
            let ghost row_prefix = |x: int| tree_char(self.trees@[w * (y as int) + x]);
            proof {
                assert(Seq::new(0, row_prefix) =~= Seq::<char>::empty());
                assert(s@ =~= render_header(w as nat, h as nat)
                    + render_rows(self.trees@, w, y as nat) + Seq::new(0, row_prefix));
            }
            let mut x: usize = 0;
            while x < self.width
                invariant
                    self.wf(),
                    w == self.spec_width(),
                    h == self.spec_height(),
                    self.trees@.len() == n,
                    y < h,
                    x <= w,
                    row_prefix == (|x: int| tree_char(self.trees@[w * (y as int) + x])),
                    s@ == render_header(w as nat, h as nat)
                        + render_rows(self.trees@, w, y as nat)
                        + Seq::new(x as nat, row_prefix),
                decreases w - x,
            {
                proof {
                    assert(0 <= w * (y as int) + x < w * h) by (nonlinear_arith)
                        requires
                            0 <= x < w,
                            0 <= y < h,
                    ;
                    assert(0 <= w * (y as int)) by (nonlinear_arith)
                        requires
                            0 <= y,
                            w >= 1,
                    ;
                }
                let ix = self.width * y + x;
                let t = self.trees[ix];
                s.append(t.symbol());
                x = x + 1;
                proof {
                    assert(Seq::new(x as nat, row_prefix)
                        =~= Seq::new((x - 1) as nat, row_prefix).push(row_prefix(x - 1)));
                    assert(s@ =~= render_header(w as nat, h as nat)
                        + render_rows(self.trees@, w, y as nat)
                        + Seq::new(x as nat, row_prefix));
                }
            }
            s.append("\n");
            y = y + 1;
            proof {
                reveal_strlit("\n");
                assert(render_row(self.trees@, w, y - 1)
                    =~= Seq::new(w as nat, row_prefix) + seq!['\n']);
                assert(s@ =~= render_header(w as nat, h as nat)
                    + render_rows(self.trees@, w, y as nat));
            }
        }
        s
    }
}

} // verus!
