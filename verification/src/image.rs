//! The rendered image and its plain-text pixel form.

use crate::scalar::Scalar;
use crate::text::push_int;
use crate::text::push_newline;
use crate::text::spec_int_str;
use crate::vec3::Vec3;
use vstd::prelude::*;
use vstd::string::StringExecFns;

verus! {

/// A finished render: its shape, the display range, and the pixel
/// colors in row-major order, top row first.
pub struct Image {
    pub columns: i32,
    pub rows: i32,
    pub max_channel_value: Scalar,
    pub pixel_colors: Vec<Vec3>,
}

/// One text line per pixel, in order.
pub open spec fn spec_ppm_lines(pixels: Seq<Vec3>) -> Seq<char>
    decreases pixels.len(),
{
    if pixels.len() == 0 {
        Seq::empty()
    } else {
        spec_ppm_lines(pixels.drop_last()) + pixels.last().spec_ppm_pixel() + seq!['\n']
    }
}

impl Image {
    /// The image header: the format tag line, the shape, and the
    /// display range rounded to a whole number.
    pub open spec fn spec_ppm_header(self) -> Seq<char> {
        seq!['P', '3', '\n'] + spec_int_str(self.columns as int) + seq![' '] + spec_int_str(
            self.rows as int,
        ) + seq!['\n'] + spec_int_str(self.max_channel_value.spec_round_even()) + seq!['\n']
    }

    /// The whole plain-text image: header, then one line per pixel.
    pub open spec fn spec_ppm(self) -> Seq<char> {
        self.spec_ppm_header() + spec_ppm_lines(self.pixel_colors@)
    }

    /// Lays the image out in its plain-text form.  Writing the returned
    /// text to a sink byte for byte is all that is left to do outside.
    pub fn to_ppm(&self) -> (s: String)
        ensures
            s@ == self.spec_ppm(),
    {
        let mut s = String::new();
        proof {
            reveal_strlit("P3\n");
            assert("P3\n"@ =~= seq!['P', '3', '\n']);
            reveal_strlit(" ");
            assert(" "@ =~= seq![' ']);
        }
        s.append("P3\n");
        push_int(&mut s, self.columns as i64);
        s.append(" ");
        push_int(&mut s, self.rows as i64);
        push_newline(&mut s);
        push_int(&mut s, self.max_channel_value.round_even());
        push_newline(&mut s);
        proof {
            assert(s@ =~= self.spec_ppm_header());
        }
        let mut i: usize = 0;
        while i < self.pixel_colors.len()
            invariant
                i <= self.pixel_colors.len(),
                s@ == self.spec_ppm_header() + spec_ppm_lines(self.pixel_colors@.take(i as int)),
            decreases self.pixel_colors.len() - i,
        {
            let line = self.pixel_colors[i].as_ppm_pixel();
            s.append(line.as_str());
            push_newline(&mut s);
            proof {
                assert(self.pixel_colors@.take(i + 1).drop_last() =~= self.pixel_colors@.take(
                    i as int,
                ));
                assert(self.pixel_colors@.take(i + 1).last() == self.pixel_colors@[i as int]);
                assert(s@ =~= self.spec_ppm_header() + spec_ppm_lines(
                    self.pixel_colors@.take(i + 1),
                ));
            }
            i = i + 1;
        }
        proof {
            assert(self.pixel_colors@.take(self.pixel_colors@.len() as int)
                =~= self.pixel_colors@);
        }
        s
    }
}

} // verus!
