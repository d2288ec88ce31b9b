//! Disk images held in memory. Like a file, an image grows when it is written past its
//! end, and what lies between reads as zeros.
use vstd::prelude::*;

use crate::io_error::IoError;

verus! {

/// The end of an image of `len` bytes after `n` bytes were written at `offset`.
pub open spec fn image_end(len: int, offset: int, n: int) -> int {
    if n > 0 && offset + n > len {
        offset + n
    } else {
        len
    }
}

/// `image` after `data` was written at `offset`.
pub open spec fn image_write(image: Seq<u8>, offset: int, data: Seq<u8>) -> Seq<u8> {
    Seq::new(
        image_end(image.len() as int, offset, data.len() as int) as nat,
        |i: int|
            if offset <= i < offset + data.len() {
                data[i - offset]
            } else if i < image.len() {
                image[i]
            } else {
                0
            },
    )
}

/// Copy `image[offset..offset + len]` out.
pub fn read_image(image: &[u8], offset: u64, len: u64) -> (r: Result<Vec<u8>, IoError>)
    ensures
        match r {
            Ok(data) => offset + len <= image@.len() && data@ == image@.subrange(
                offset as int,
                offset + len,
            ),
            Err(e) => offset + len > image@.len() && e == IoError::UnexpectedEof,
        },
{
    let size = image.len() as u64;
    if offset > size || len > size - offset {
        return Err(IoError::UnexpectedEof);
    }
    let start = offset as usize;
    let end = start + len as usize;
    let mut data: Vec<u8> = Vec::new();
    let mut i: usize = start;
    while i < end
        invariant
            start <= i <= end <= image@.len(),
            data@ =~= image@.subrange(start as int, i as int),
        decreases end - i,
    {
        data.push(image[i]);
        i += 1;
    }
    Ok(data)
}

/// Write `data` at `offset`. Nothing is written when it ends past the largest image.
pub fn write_image(image: &mut Vec<u8>, offset: u64, data: &[u8]) -> (r: Result<(), IoError>)
    ensures
        match r {
            Ok(_) => offset + data@.len() <= isize::MAX && final(image)@ == image_write(
                old(image)@,
                offset as int,
                data@,
            ),
            Err(e) => offset + data@.len() > isize::MAX && e == IoError::FileTooLarge
                && final(image)@ == old(image)@,
        },
{
    let limit = isize::MAX as u64;
    if offset > limit || data.len() as u64 > limit - offset {
        return Err(IoError::FileTooLarge);
    }
    let start = offset as usize;
    let end = start + data.len();
    if data.len() > 0 && image.len() < end {
        image.resize(end, 0);
    }
    let mut i: usize = 0;
    while i < data.len()
        invariant
            i <= data@.len(),
            start == offset,
            end == start + data@.len(),
            data@.len() > 0 ==> end <= image.len(),
            image@.len() == image_end(old(image)@.len() as int, start as int, data@.len() as int),
            forall|k: int|
                0 <= k < image@.len() ==> #[trigger] image@[k] == if start <= k < start + i {
                    data@[k - start]
                } else if k < old(image)@.len() {
                    old(image)@[k]
                } else {
                    0
                },
        decreases data@.len() - i,
    {
        image[start + i] = data[i];
        i += 1;
    }
    assert(image@ =~= image_write(old(image)@, offset as int, data@));
    Ok(())
}

/// A write puts each byte of `data` in its place and leaves every other byte of the image
/// alone. The image ends where it did, or where the data ends if that is later; a gap
/// between the two reads as zeros.
pub proof fn law_write_is_local(image: Seq<u8>, offset: int, data: Seq<u8>, i: int)
    requires
        0 <= offset,
    ensures
        image_write(image, offset, data).len() >= image.len(),
        data.len() == 0 ==> image_write(image, offset, data) == image,
        data.len() > 0 ==> image_write(image, offset, data).len() >= offset + data.len(),
        image_write(image, offset, data).len() == image.len() || image_write(
            image,
            offset,
            data,
        ).len() == offset + data.len(),
        0 <= i < data.len() ==> image_write(image, offset, data)[offset + i] == data[i],
        0 <= i < image.len() && !(offset <= i < offset + data.len()) ==> image_write(
            image,
            offset,
            data,
        )[i] == image[i],
        image.len() <= i < offset && data.len() > 0 ==> image_write(image, offset, data)[i] == 0,
{
    if data.len() == 0 {
        assert(image_write(image, offset, data) =~= image);
    }
}

/// A range is read exactly when it ends at or before the end of the image, and then byte for
/// byte.
pub proof fn law_read_is_local(
    image: &[u8],
    offset: u64,
    len: u64,
    r: Result<Vec<u8>, IoError>,
    i: int,
)
    requires
        call_ensures(read_image, (image, offset, len), r),
    ensures
        r is Ok <==> offset + len <= image@.len(),
        r matches Err(e) ==> e == IoError::UnexpectedEof,
        r matches Ok(data) ==> data@.len() == len && (0 <= i < len ==> data@[i] == image@[offset
            + i]),
{
}

} // verus!
