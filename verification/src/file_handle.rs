//! File handles as the kernel reports them.

use vstd::prelude::*;
use vstd::slice::slice_subrange;

use crate::util;

verus! {

/// The bytes do not hold the whole handle that their header announces.
#[derive(Debug)]
pub struct FileHandleInvalidError;

/// The header of a handle: how many bytes follow it, and their type.
#[allow(non_camel_case_types)]
#[derive(Debug, Clone, Copy, PartialEq, Eq, Structural)]
pub struct file_handle {
    pub handle_bytes: u32,
    pub handle_type: i32,
}

/// The length of the header.
pub const HEADER_LEN: usize = 8;

/// The header that `buf` starts with.
pub open spec fn header_of(buf: Seq<u8>) -> file_handle {
    file_handle { handle_bytes: util::u32_at(buf, 0), handle_type: util::u32_at(buf, 4) as i32 }
}

/// The length of the handle that `buf` starts with, as its header gives it.
pub open spec fn handle_len(buf: Seq<u8>) -> int {
    HEADER_LEN + header_of(buf).handle_bytes
}

/// Whether `buf` is one handle, with nothing after it.
pub open spec fn is_handle(buf: Seq<u8>) -> bool {
    &&& HEADER_LEN <= buf.len()
    &&& handle_len(buf) == buf.len()
}

/// Reads the header at the start of `buf`.
pub fn read_header(buf: &[u8]) -> (r: file_handle)
    requires
        HEADER_LEN <= buf@.len(),
    ensures
        r == header_of(buf@),
{
    file_handle { handle_bytes: util::read_u32(buf, 0), handle_type: util::read_u32(buf, 4) as i32 }
}

/// A borrowed handle: to [`FileHandle`] what `str` is to `String`.
#[derive(Debug, Clone, Copy)]
pub struct FileHan<'a> {
    bytes: &'a [u8],
}

impl<'a> View for FileHan<'a> {
    type V = Seq<u8>;

    closed spec fn view(&self) -> Seq<u8> {
        self.bytes@
    }
}

impl<'a> FileHan<'a> {
    #[verifier::type_invariant]
    spec fn inv(self) -> bool {
        is_handle(self.bytes@)
    }

    /// The handle that `buf` starts with; what follows the handle is left aside.
    pub fn read_from_buf(buf: &'a [u8]) -> (r: Result<FileHan<'a>, FileHandleInvalidError>)
        requires
            HEADER_LEN <= buf@.len(),
        ensures
            r is Ok <==> handle_len(buf@) <= buf@.len(),
            r matches Ok(h) ==> h@ == buf@.subrange(0, handle_len(buf@)) && is_handle(h@),
    {
        let header = read_header(buf);
        if header.handle_bytes as usize > buf.len() - HEADER_LEN {
            return Err(FileHandleInvalidError);
        }
        let total_len: usize = HEADER_LEN + header.handle_bytes as usize;
        let bytes = slice_subrange(buf, 0, total_len);
        proof {
            util::lemma_fields_of_subrange(buf@, 0, total_len as int, 0);
        }
        Ok(FileHan { bytes })
    }

    /// Takes `buf` for a handle.
    pub fn unchecked(buf: &'a [u8]) -> (r: FileHan<'a>)
        requires
            is_handle(buf@),
        ensures
            r@ == buf@,
    {
        FileHan { bytes: buf }
    }

    /// The handle's bytes, for as long as they are borrowed.
    pub fn bytes(&self) -> (r: &'a [u8])
        ensures
            r@ == self@,
            is_handle(r@),
    {
        proof {
            use_type_invariant(self);
        }
        self.bytes
    }

    /// An owned copy of the handle.
    pub fn to_owned(&self) -> (r: FileHandle)
        ensures
            r@ == self@,
    {
        FileHandle::new(self)
    }
}

/// An owned handle.
#[derive(Debug)]
pub struct FileHandle {
    bytes: Vec<u8>,
}

impl View for FileHandle {
    type V = Seq<u8>;

    closed spec fn view(&self) -> Seq<u8> {
        self.bytes@
    }
}

impl FileHandle {
    #[verifier::type_invariant]
    spec fn inv(self) -> bool {
        is_handle(self.bytes@)
    }

    /// Copies a borrowed handle.
    pub fn new(handle: &FileHan<'_>) -> (r: FileHandle)
        ensures
            r@ == handle@,
    {
        FileHandle { bytes: util::copy_bytes(handle.bytes()) }
    }

    /// The handle, borrowed.
    pub fn borrow(&self) -> (r: FileHan<'_>)
        ensures
            r@ == self@,
    {
        self.deref()
    }

    /// The handle, borrowed.
    pub fn deref(&self) -> (r: FileHan<'_>)
        ensures
            r@ == self@,
    {
        proof {
            use_type_invariant(self);
        }
        FileHan::unchecked(self.bytes.as_slice())
    }
}

impl Clone for FileHandle {
    fn clone(&self) -> (r: Self)
        ensures
            r@ == self@,
    {
        FileHandle::new(&self.deref())
    }
}

/// What borrowed and owned handles have in common.
pub trait FileHandleOps {
    /// The bytes of the handle.
    spec fn handle(&self) -> Seq<u8>;

    /// The bytes of the handle, header first.
    fn buf(&self) -> (r: &[u8])
        ensures
            r@ == self.handle(),
            is_handle(r@),
    ;

    /// The bytes after the header.
    fn f_handle(&self) -> (r: &[u8])
        ensures
            r@ == self.handle().subrange(HEADER_LEN as int, self.handle().len() as int),
            r@.len() == header_of(self.handle()).handle_bytes,
    {
        let buf = self.buf();
        slice_subrange(buf, HEADER_LEN, buf.len())
    }

    /// The length of the handle as its header gives it, which is the number of its bytes.
    fn size(&self) -> (r: usize)
        ensures
            r == handle_len(self.handle()),
            r == self.handle().len(),
    {
        let buf = self.buf();
        let header = read_header(buf);
        assert(handle_len(buf@) == buf.len());
        HEADER_LEN + header.handle_bytes as usize
    }
}

impl<'a> FileHandleOps for FileHan<'a> {
    open spec fn handle(&self) -> Seq<u8> {
        self@
    }

    fn buf(&self) -> (r: &[u8]) {
        self.bytes()
    }
}

impl FileHandleOps for FileHandle {
    open spec fn handle(&self) -> Seq<u8> {
        self@
    }

    fn buf(&self) -> (r: &[u8]) {
        proof {
            use_type_invariant(self);
        }
        self.bytes.as_slice()
    }
}

/// A handle is read back from its bytes, whatever follows them.
pub proof fn law_read_back(handle: Seq<u8>, rest: Seq<u8>)
    requires
        is_handle(handle),
    ensures
        header_of(handle + rest) == header_of(handle),
        handle_len(handle + rest) <= (handle + rest).len(),
        (handle + rest).subrange(0, handle_len(handle + rest)) == handle,
{
    let buf = handle + rest;
    util::lemma_fields_of_subrange(buf, 0, handle.len() as int, 0);
    util::lemma_fields_of_subrange(buf, 0, handle.len() as int, 4);
    assert(buf.subrange(0, handle.len() as int) =~= handle);
}

} // verus!
