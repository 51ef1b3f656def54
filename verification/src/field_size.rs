use vstd::prelude::*;

verus! {

/// The pixel size of one rendered square: width and height.
#[derive(Copy, Clone, PartialEq, Eq, Structural, Debug)]
pub struct FieldSize {
    pub width: u16,
    pub height: u16,
}

impl FieldSize {
    pub fn width(&self) -> (r: u16)
        ensures
            r == self.width,
    {
        self.width
    }

    pub fn height(&self) -> (r: u16)
        ensures
            r == self.height,
    {
        self.height
    }

    pub fn new(w: u16, h: u16) -> (r: FieldSize)
        ensures
            r == (FieldSize { width: w, height: h }),
    {
        FieldSize { width: w, height: h }
    }

    /// Parse a field size written as `<width>x<height>`, or a single
    /// length for a square field.
    pub fn try_from(value: &str) -> (r: Result<FieldSize, String>) {
        let n = value.unicode_len();
        let mut first_x: Option<usize> = None;
        let mut i: usize = 0;
        while i < n
            invariant
                i <= n,
                n == value@.len(),
                match first_x {
                    Some(j) => j < n,
                    None => true,
                },
            decreases n - i,
        {
            if value.get_char(i) == 'x' {
                match first_x {
                    None => {
                        first_x = Some(i);
                    },
                    Some(_) => {
                        return Err(
                            String::from_str(
                                "Expected string of the form <width>x<height> or <length>",
                            ),
                        );
                    },
                }
            }
            i = i + 1;
        }
        match first_x {
            None => {
                let w = parse_u16_digits(value, 0, n)?;
                Ok(FieldSize { width: w, height: w })
            },
            Some(j) => {
                let w = parse_u16_digits(value, 0, j)?;
                let h = parse_u16_digits(value, j + 1, n)?;
                Ok(FieldSize { width: w, height: h })
            },
        }
    }
}

/// Parse the decimal number written between two offsets of the string.
fn parse_u16_digits(s: &str, from: usize, to: usize) -> (r: Result<u16, String>)
    requires
        from <= to <= s@.len(),
{
    if from == to {
        return Err(String::from_str("cannot parse integer from empty string"));
    }
    let mut value: u16 = 0;
    let mut i = from;
    while i < to
        invariant
            from <= i <= to,
            to <= s@.len(),
        decreases to - i,
    {
        let c = s.get_char(i);
        let code = c as u32;
        if !(48 <= code && code <= 57) {
            return Err(String::from_str("invalid digit found in string"));
        }
        value = match value.checked_mul(10) {
            Some(v) => match v.checked_add((code - 48) as u16) {
                Some(v2) => v2,
                None => {
                    return Err(String::from_str("number too large to fit in target type"));
                },
            },
            None => {
                return Err(String::from_str("number too large to fit in target type"));
            },
        };
        i = i + 1;
    }
    Ok(value)
}

/// Parse a field size for the command line.
pub fn parse_field_size(arg: &str) -> (r: Result<FieldSize, String>) {
    FieldSize::try_from(arg)
}

} // verus!
