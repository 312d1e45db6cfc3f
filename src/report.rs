use vstd::prelude::*;

use crate::size_format::{decimal, fit_4, push_decimal, size_text};
use crate::top_files::FileEntry;

verus! {

/// `s` followed by spaces up to `width` characters; as is when already as long.
pub open spec fn pad_right(s: Seq<char>, width: nat) -> Seq<char> {
    if s.len() >= width {
        s
    } else {
        s + Seq::new((width - s.len()) as nat, |i: int| ' ')
    }
}

/// The line that gives how many files were met and their total size.
pub fn summary_line(file_count: u64, total_size: u64) -> (r: String)
    ensures
        r@ == "Number of files "@ + decimal(file_count as nat) + ", total size: "@ + size_text(
            total_size as nat,
        ),
{
    let mut s = String::new();
    s.append("Number of files ");
    push_decimal(&mut s, file_count);
    s.append(", total size: ");
    s.append(fit_4(total_size).as_str());
    s
}

/// The line that announces the list of the `shown` largest files.
pub fn header_line(shown: usize) -> (r: String)
    ensures
        r@ == "Top "@ + decimal(shown as nat) + " biggest files"@,
{
    let mut s = String::new();
    s.append("Top ");
    push_decimal(&mut s, shown as u64);
    s.append(" biggest files");
    s
}

/// The line of one of the largest files: its size text, padded to four
/// characters, then its path.
pub fn entry_line(entry: &FileEntry) -> (r: String)
    ensures
        r@ == pad_right(size_text(entry.size as nat), 4) + " - "@ + entry.path@,
{
    let mut s = fit_4(entry.size);
    let n = s.as_str().unicode_len();
    let ghost text = s@;
    let mut k: usize = n;
    while k < 4
        invariant
            n <= k <= 4 || (n == k && n > 4),
            n == text.len(),
            s@ == text + Seq::new((k - n) as nat, |i: int| ' '),
        decreases 4 - k,
    {
        proof {
            reveal_strlit(" ");
        }
        s.append(" ");
        k = k + 1;
        assert(s@ =~= text + Seq::new((k - n) as nat, |i: int| ' '));
    }
    assert(s@ =~= pad_right(text, 4));
    s.append(" - ");
    s.append(entry.path.as_str());
    s
}

} // verus!
