use vstd::prelude::*;

verus! {

use vstd::string::StringSliceAdditionalSpecFns;
use vstd::string::StringExecFns;

use crate::mask::{mask_bit, lemma_unit_in_range};
use crate::sorn::{
    Sorn, SornOp, spec_binop, spec_op_of, parse_op, val_selfeq, lemma_seq_val_eq_refl,
    spec_ranges_text, vals_string,
};
use crate::sornset::sets_wf;
use crate::sornset::{SornSet, SornValue};

/// An operation table: the unit masks of a partition as header, and for
/// each pair the mask their combination produces. Cell `(i, j)` of the
/// data holds the result for row-unit `j` and column-unit `i`, so the
/// emitted table is the transpose of row-major expectation; that layout
/// is the defined behavior.
pub struct SornTable {
    pub sorn_sets: SornSet,
    pub header: Vec<u128>,
    pub table_data: Vec<Vec<u128>>,
}

impl SornTable {
    pub open spec fn header_ok(&self, n: int) -> bool {
        self.header@.len() == n && (forall|i: int|
            0 <= i < n ==> self.header@[i] == mask_bit(i))
    }

    /// Every cell holds the operation of the column unit by the row unit.
    pub open spec fn data_ok(&self, set: SornSet, op: SornOp, n: int) -> bool {
        self.table_data@.len() == n && (forall|j: int|
            0 <= j < n ==> (#[trigger] self.table_data@[j])@.len() == n) && (forall|i: int, j: int|
            0 <= i < n && 0 <= j < n ==> (#[trigger] self.table_data@[j]@[i]) == spec_binop(
                set.sets@,
                set.contains_inf,
                op,
                mask_bit(i),
                mask_bit(j),
            ))
    }
}

/// Builds the full operation table over the unit masks of the partition.
/// The operator tag must be one of "add", "sub", "mul" and "div".
pub fn gen_table(sorn_sets: &SornSet, operator: &str) -> (r: SornTable)
    requires
        sorn_sets.wf(),
        spec_op_of(operator.spec_bytes()) is Some,
        forall|i: int|
            0 <= i < sorn_sets.sets@.len() ==> val_selfeq(#[trigger] sorn_sets.sets@[i]),
    ensures
        ({
            let op = spec_op_of(operator.spec_bytes()).unwrap();
            let n = sorn_sets.sets@.len() as int;
            r.header_ok(n) && r.data_ok(*sorn_sets, op, n)
        }),
{
    let op = parse_op(operator).unwrap();
    let n = sorn_sets.len();
    let ghost sets = sorn_sets.sets@;
    proof {
        lemma_seq_val_eq_refl(sets);
    }
    let mut sorns: Vec<Sorn> = Vec::new();
    let mut i: usize = 0;
    while i < n
        invariant
            0 <= i <= n,
            n == sorn_sets.sets@.len() <= 128,
            sorn_sets.wf(),
            sorns@.len() == i,
            forall|k: int|
                0 <= k < i ==> (#[trigger] sorns@[k]).bits == mask_bit(k)
                    && sorns@[k].sorn_set.sets@ == sorn_sets.sets@
                    && sorns@[k].sorn_set.contains_inf == sorn_sets.contains_inf
                    && sorns@[k].sorn_set.wf(),
        decreases n - i,
    {
        let mut sorn = Sorn::new(sorn_sets);
        proof {
            if n < 128 {
                lemma_unit_in_range(i as u128, n as u128);
            }
        }
        let res = sorn.set_bits(1u128 << (i as u128));
        sorns.push(sorn);
        i = i + 1;
    }
    let mut header: Vec<u128> = Vec::new();
    let mut i: usize = 0;
    while i < n
        invariant
            0 <= i <= n,
            n == sorn_sets.sets@.len() <= 128,
            sorns@.len() == n,
            forall|k: int|
                0 <= k < n ==> (#[trigger] sorns@[k]).bits == mask_bit(k),
            header@.len() == i,
            forall|k: int| 0 <= k < i ==> header@[k] == mask_bit(k),
        decreases n - i,
    {
        header.push(sorns[i].bits);
        i = i + 1;
    }
    let mut table_data: Vec<Vec<u128>> = Vec::new();
    let mut j: usize = 0;
    while j < n
        invariant
            0 <= j <= n,
            n == sorn_sets.sets@.len() <= 128,
            sorn_sets.wf(),
            op == spec_op_of(operator.spec_bytes()).unwrap(),
            spec_op_of(operator.spec_bytes()) is Some,
            seq_refl_grid(sorn_sets.sets@),
            sorns@.len() == n,
            forall|k: int|
                0 <= k < n ==> (#[trigger] sorns@[k]).bits == mask_bit(k)
                    && sorns@[k].sorn_set.sets@ == sorn_sets.sets@
                    && sorns@[k].sorn_set.contains_inf == sorn_sets.contains_inf
                    && sorns@[k].sorn_set.wf(),
            table_data@.len() == j,
            forall|q: int|
                0 <= q < j ==> (#[trigger] table_data@[q])@.len() == n,
            forall|p: int, q: int|
                0 <= p < n && 0 <= q < j ==> (#[trigger] table_data@[q]@[p]) == spec_binop(
                    sorn_sets.sets@,
                    sorn_sets.contains_inf,
                    spec_op_of(operator.spec_bytes()).unwrap(),
                    mask_bit(p),
                    mask_bit(q),
                ),
        decreases n - j,
    {
        let mut row: Vec<u128> = Vec::new();
        let mut i: usize = 0;
        while i < n
            invariant
                0 <= i <= n,
                0 <= j < n,
                n == sorn_sets.sets@.len() <= 128,
                sorn_sets.wf(),
                seq_refl_grid(sorn_sets.sets@),
                sorns@.len() == n,
                op == spec_op_of(operator.spec_bytes()).unwrap(),
                spec_op_of(operator.spec_bytes()) is Some,
                forall|k: int|
                    0 <= k < n ==> (#[trigger] sorns@[k]).bits == mask_bit(k)
                        && sorns@[k].sorn_set.sets@ == sorn_sets.sets@
                        && sorns@[k].sorn_set.contains_inf == sorn_sets.contains_inf
                        && sorns@[k].sorn_set.wf(),
                row@.len() == i,
                forall|p: int|
                    0 <= p < i ==> (#[trigger] row@[p]) == spec_binop(
                        sorn_sets.sets@,
                        sorn_sets.contains_inf,
                        spec_op_of(operator.spec_bytes()).unwrap(),
                        mask_bit(p),
                        mask_bit(j as int),
                    ),
            decreases n - i,
        {
            proof {
                lemma_seq_val_eq_refl(sorn_sets.sets@);
                if n < 128 {
                    lemma_unit_in_range(i as u128, n as u128);
                }
            }
            let cur = match op {
                SornOp::Add => sorns[i].add(&sorns[j]),
                SornOp::Sub => sorns[i].sub(&sorns[j]),
                SornOp::Mul => sorns[i].mul(&sorns[j]),
                SornOp::Div => sorns[i].div(&sorns[j]),
            };
            row.push(cur.bits);
            i = i + 1;
        }
        table_data.push(row);
        j = j + 1;
    }
    SornTable { sorn_sets: sorn_sets.duplicate(), header, table_data }
}

/// All elements equal themselves (shorthand used in the loop invariants).
pub open spec fn seq_refl_grid(sets: Seq<SornValue>) -> bool {
    forall|i: int| 0 <= i < sets.len() ==> val_selfeq(#[trigger] sets[i])
}

// ------------------------------------------------------------------
// CSV emission.
// ------------------------------------------------------------------

/// The digits of a mask in base two, highest first, no padding; a zero
/// mask is the single digit zero.
pub open spec fn spec_bin_digits(m: u128) -> Seq<char>
    decreases m,
{
    if m < 2 {
        if m == 1 {
            seq!['1']
        } else {
            seq!['0']
        }
    } else {
        spec_bin_digits(m / 2).push(if m % 2 == 1 {
            '1'
        } else {
            '0'
        })
    }
}

/// The first `k` cells of one row: each mask in base two followed by a
/// comma.
pub open spec fn spec_csv_cells(row: Seq<u128>, k: int) -> Seq<char>
    decreases k,
{
    if k <= 0 {
        Seq::<char>::empty()
    } else {
        spec_csv_cells(row, k - 1) + spec_bin_digits(row[k - 1]) + seq![',']
    }
}

/// The first `k` data rows: the row's unit mask, a comma, the cells, a
/// newline.
pub open spec fn spec_csv_rows(header: Seq<u128>, data: Seq<Seq<u128>>, k: int) -> Seq<char>
    decreases k,
{
    if k <= 0 {
        Seq::<char>::empty()
    } else {
        spec_csv_rows(header, data, k - 1) + spec_bin_digits(header[k - 1]) + seq![',']
            + spec_csv_cells(data[k - 1], data[k - 1].len() as int) + seq!['\n']
    }
}

/// The whole document: a leading comma, the header masks, then each row.
pub open spec fn spec_csv(header: Seq<u128>, data: Seq<Seq<u128>>) -> Seq<char> {
    seq![','] + spec_csv_cells(header, header.len() as int) + seq!['\n'] + spec_csv_rows(
        header,
        data,
        data.len() as int,
    )
}

/// A mask rendered in base two.
fn bin_string(m: u128) -> (r: String)
    ensures
        r@ == spec_bin_digits(m),
    decreases m,
{
    if m < 2 {
        if m == 1 {
            let s = "1".to_owned();
            proof {
                reveal_strlit("1");
            }
            s
        } else {
            let s = "0".to_owned();
            proof {
                reveal_strlit("0");
            }
            s
        }
    } else {
        let mut s = bin_string(m / 2);
        if m % 2 == 1 {
            s.append("1");
            proof {
                reveal_strlit("1");
                assert(s@ =~= spec_bin_digits(m));
            }
        } else {
            s.append("0");
            proof {
                reveal_strlit("0");
                assert(s@ =~= spec_bin_digits(m));
            }
        }
        s
    }
}

impl SornTable {
    /// Renders the table as comma-separated base-two masks: a header line
    /// first, a trailing comma after every field, a newline after every
    /// line.
    pub fn to_csv(&self) -> (r: String)
        requires
            self.table_data@.len() <= self.header@.len(),
        ensures
            r@ == spec_csv(self.header@, self.table_data@.map_values(|v: Vec<u128>| v@)),
    {
        let ghost hdr = self.header@;
        let ghost data = self.table_data@.map_values(|v: Vec<u128>| v@);
        let mut result = ",".to_owned();
        proof {
            reveal_strlit(",");
        }
        let mut i: usize = 0;
        while i < self.header.len()
            invariant
                0 <= i <= hdr.len(),
                hdr == self.header@,
                result@ == seq![','] + spec_csv_cells(hdr, i as int),
            decreases hdr.len() - i,
        {
            let cell = bin_string(self.header[i]);
            result.append(cell.as_str());
            result.append(",");
            proof {
                reveal_strlit(",");
                assert(result@ =~= seq![','] + spec_csv_cells(hdr, i + 1));
            }
            i = i + 1;
        }
        result.append("\n");
        proof {
            reveal_strlit("\n");
            assert(result@ =~= seq![','] + spec_csv_cells(hdr, hdr.len() as int) + seq!['\n']);
        }
        let mut j: usize = 0;
        while j < self.table_data.len()
            invariant
                0 <= j <= data.len(),
                hdr == self.header@,
                data == self.table_data@.map_values(|v: Vec<u128>| v@),
                data.len() == self.table_data@.len(),
                hdr.len() >= data.len(),
                result@ == seq![','] + spec_csv_cells(hdr, hdr.len() as int) + seq!['\n']
                    + spec_csv_rows(hdr, data, j as int),
            decreases data.len() - j,
        {
            let head_cell = bin_string(self.header[j]);
            result.append(head_cell.as_str());
            result.append(",");
            let ghost row = data[j as int];
            proof {
                reveal_strlit(",");
                assert(result@ =~= seq![','] + spec_csv_cells(hdr, hdr.len() as int) + seq!['\n']
                    + spec_csv_rows(hdr, data, j as int) + spec_bin_digits(hdr[j as int])
                    + seq![','] + spec_csv_cells(row, 0));
            }
            let mut i: usize = 0;
            while i < self.table_data[j].len()
                invariant
                    0 <= i <= row.len(),
                    0 <= j < data.len(),
                    hdr == self.header@,
                    data == self.table_data@.map_values(|v: Vec<u128>| v@),
                    data.len() == self.table_data@.len(),
                    row == data[j as int],
                    row.len() == self.table_data@[j as int]@.len(),
                    result@ == seq![','] + spec_csv_cells(hdr, hdr.len() as int) + seq!['\n']
                        + spec_csv_rows(hdr, data, j as int) + spec_bin_digits(hdr[j as int])
                        + seq![','] + spec_csv_cells(row, i as int),
                decreases row.len() - i,
            {
                let cell = bin_string(self.table_data[j][i]);
                result.append(cell.as_str());
                result.append(",");
                proof {
                    reveal_strlit(",");
                    assert(result@ =~= seq![','] + spec_csv_cells(hdr, hdr.len() as int)
                        + seq!['\n'] + spec_csv_rows(hdr, data, j as int) + spec_bin_digits(
                        hdr[j as int],
                    ) + seq![','] + spec_csv_cells(row, i + 1));
                }
                i = i + 1;
            }
            result.append("\n");
            proof {
                reveal_strlit(",");
                reveal_strlit("\n");
                assert(result@ =~= seq![','] + spec_csv_cells(hdr, hdr.len() as int) + seq!['\n']
                    + spec_csv_rows(hdr, data, j + 1));
            }
            j = j + 1;
        }
        proof {
            reveal_strlit(",");
        }
        result
    }
}


// ------------------------------------------------------------------
// The human-readable table format.
// ------------------------------------------------------------------

/// The tab-bar-tab separator between table fields.
pub open spec fn spec_tab_sep() -> Seq<char> {
    seq!['\t', '|', '\t']
}

/// The first `k` fields of a table line, each followed by the separator.
pub open spec fn spec_table_cells(row: Seq<u128>, k: int) -> Seq<char>
    decreases k,
{
    if k <= 0 {
        Seq::<char>::empty()
    } else {
        spec_table_cells(row, k - 1) + spec_bin_digits(row[k - 1]) + spec_tab_sep()
    }
}

pub open spec fn spec_dashes(k: int) -> Seq<char>
    decreases k,
{
    if k <= 0 {
        Seq::<char>::empty()
    } else {
        spec_dashes(k - 1).push('-')
    }
}

/// The first `k` data lines: the row's unit mask, the separator, the
/// cells, a newline.
pub open spec fn spec_table_rows(header: Seq<u128>, data: Seq<Seq<u128>>, k: int) -> Seq<char>
    decreases k,
{
    if k <= 0 {
        Seq::<char>::empty()
    } else {
        spec_table_rows(header, data, k - 1) + spec_bin_digits(header[k - 1]) + spec_tab_sep()
            + spec_table_cells(data[k - 1], data[k - 1].len() as int) + seq!['\n']
    }
}

/// The whole human-readable table: the partition's elements, the header
/// masks, a dashed rule, then one line per row.
pub open spec fn spec_table_text(
    sets: Seq<crate::sornset::SornValue>,
    header: Seq<u128>,
    data: Seq<Seq<u128>>,
) -> Seq<char> {
    seq!['S', 'o', 'r', 'n', ' ', 'S', 'e', 't', ':', ' '] + spec_ranges_text(sets) + seq!['\n']
        + spec_tab_sep() + spec_table_cells(header, header.len() as int) + seq!['\n']
        + spec_dashes(header.len() * 20 as int) + seq!['\n'] + spec_table_rows(
        header,
        data,
        data.len() as int,
    )
}

fn dashes_string(k: usize) -> (r: String)
    ensures
        r@ == spec_dashes(k as int),
{
    let mut s = String::new();
    let mut i: usize = 0;
    while i < k
        invariant
            0 <= i <= k,
            s@ == spec_dashes(i as int),
        decreases k - i,
    {
        s.append("-");
        proof {
            reveal_strlit("-");
            assert(s@ =~= spec_dashes(i + 1));
        }
        i = i + 1;
    }
    s
}

impl SornTable {
    /// Renders the table for reading: the partition's elements, the unit
    /// masks, a dashed rule, and the rows, fields separated by tabs and
    /// bars. Not machine-consumed.
    pub fn to_string(&self) -> (r: String)
        requires
            self.table_data@.len() <= self.header@.len() <= 128,
            sets_wf(self.sorn_sets.sets@),
        ensures
            r@ == spec_table_text(
                self.sorn_sets.sets@,
                self.header@,
                self.table_data@.map_values(|v: Vec<u128>| v@),
            ),
    {
        let ghost hdr = self.header@;
        let ghost data = self.table_data@.map_values(|v: Vec<u128>| v@);
        let mut result = "Sorn Set: ".to_owned();
        let sets_text = vals_string(&self.sorn_sets.sets);
        result.append(sets_text.as_str());
        result.append("\n\t|\t");
        proof {
            reveal_strlit("Sorn Set: ");
            reveal_strlit("\n\t|\t");
            assert(result@ =~= seq!['S', 'o', 'r', 'n', ' ', 'S', 'e', 't', ':', ' ']
                + spec_ranges_text(self.sorn_sets.sets@) + seq!['\n'] + spec_tab_sep()
                + spec_table_cells(hdr, 0));
        }
        let ghost head = seq!['S', 'o', 'r', 'n', ' ', 'S', 'e', 't', ':', ' ']
            + spec_ranges_text(self.sorn_sets.sets@) + seq!['\n'] + spec_tab_sep();
        let mut i: usize = 0;
        while i < self.header.len()
            invariant
                0 <= i <= hdr.len(),
                hdr == self.header@,
                head == seq!['S', 'o', 'r', 'n', ' ', 'S', 'e', 't', ':', ' ']
                    + spec_ranges_text(self.sorn_sets.sets@) + seq!['\n'] + spec_tab_sep(),
                result@ == head + spec_table_cells(hdr, i as int),
            decreases hdr.len() - i,
        {
            let cell = bin_string(self.header[i]);
            result.append(cell.as_str());
            result.append("\t|\t");
            proof {
                reveal_strlit("\t|\t");
                assert(result@ =~= head + spec_table_cells(hdr, i + 1));
            }
            i = i + 1;
        }
        result.append("\n");
        let rule = dashes_string(self.header.len() * 20);
        result.append(rule.as_str());
        result.append("\n");
        proof {
            reveal_strlit("\n");
            assert(result@ =~= head + spec_table_cells(hdr, hdr.len() as int) + seq!['\n']
                + spec_dashes(hdr.len() * 20 as int) + seq!['\n'] + spec_table_rows(hdr, data, 0));
        }
        let ghost mid = head + spec_table_cells(hdr, hdr.len() as int) + seq!['\n'] + spec_dashes(
            hdr.len() * 20 as int,
        ) + seq!['\n'];
        let mut j: usize = 0;
        while j < self.table_data.len()
            invariant
                0 <= j <= data.len(),
                hdr == self.header@,
                data == self.table_data@.map_values(|v: Vec<u128>| v@),
                data.len() == self.table_data@.len(),
                hdr.len() >= data.len(),
                result@ == mid + spec_table_rows(hdr, data, j as int),
            decreases data.len() - j,
        {
            let head_cell = bin_string(self.header[j]);
            result.append(head_cell.as_str());
            result.append("\t|\t");
            let ghost row = data[j as int];
            proof {
                reveal_strlit("\t|\t");
                assert(result@ =~= mid + spec_table_rows(hdr, data, j as int) + spec_bin_digits(
                    hdr[j as int],
                ) + spec_tab_sep() + spec_table_cells(row, 0));
            }
            let mut i: usize = 0;
            while i < self.table_data[j].len()
                invariant
                    0 <= i <= row.len(),
                    0 <= j < data.len(),
                    hdr == self.header@,
                    data == self.table_data@.map_values(|v: Vec<u128>| v@),
                    data.len() == self.table_data@.len(),
                    row == data[j as int],
                    row.len() == self.table_data@[j as int]@.len(),
                    result@ == mid + spec_table_rows(hdr, data, j as int) + spec_bin_digits(
                        hdr[j as int],
                    ) + spec_tab_sep() + spec_table_cells(row, i as int),
                decreases row.len() - i,
            {
                let cell = bin_string(self.table_data[j][i]);
                result.append(cell.as_str());
                result.append("\t|\t");
                proof {
                    reveal_strlit("\t|\t");
                    assert(result@ =~= mid + spec_table_rows(hdr, data, j as int)
                        + spec_bin_digits(hdr[j as int]) + spec_tab_sep() + spec_table_cells(
                        row,
                        i + 1,
                    ));
                }
                i = i + 1;
            }
            result.append("\n");
            proof {
                reveal_strlit("\n");
                assert(result@ =~= mid + spec_table_rows(hdr, data, j + 1));
            }
            j = j + 1;
        }
        result
    }
}

} // verus!
