use vstd::prelude::*;
use vstd::string::StringExecFns;

verus! {

/// The ways in which loading or running a program fails.
#[derive(Clone, Copy, Debug, PartialEq, Eq, Structural, Hash)]
pub enum VmError {
    /// The command line did not name exactly one program.
    BadUsage,
    /// The program file or the input stream could not be read.
    IoError,
    /// The image is shorter than its header, longer than header plus memory,
    /// or does not start with the magic bytes.
    BadImage,
    /// An unknown opcode, sub-opcode or condition, or a malformed operand.
    BadInstruction,
    /// Division or remainder by zero.
    DivideByZero,
    /// A push with no room left below the stack pointer.
    OutOfMemory,
    /// A pop or peek that reaches outside the memory.
    StackEmpty,
    /// An address operand outside the memory.
    OutOfBounds,
    /// A line of input that is not a number.
    BadInput,
    /// An unknown print format.
    BadFormat,
    /// The program counter left the memory.
    Fatal,
}

impl VmError {
    /// The text shown to the user for this error.
    pub open spec fn message_text(self) -> Seq<char> {
        match self {
            VmError::BadUsage => "usage: vm <file.v>"@,
            VmError::IoError => "Couldn't read input."@,
            VmError::BadImage => "File format is invalid."@,
            VmError::BadInstruction => "Bad instruction."@,
            VmError::DivideByZero => "Attempt to divide by zero."@,
            VmError::OutOfMemory => "Out of memory."@,
            VmError::StackEmpty => "Stack is empty."@,
            VmError::OutOfBounds => "Address out of bounds."@,
            VmError::BadInput => "Bad input."@,
            VmError::BadFormat => "Faulty format code."@,
            VmError::Fatal => "Program counter out of range."@,
        }
    }

    /// The text shown to the user for this error.
    pub fn message(&self) -> (text: String)
        ensures
            text@ == self.message_text(),
    {
        match self {
            VmError::BadUsage => String::from_str("usage: vm <file.v>"),
            VmError::IoError => String::from_str("Couldn't read input."),
            VmError::BadImage => String::from_str("File format is invalid."),
            VmError::BadInstruction => String::from_str("Bad instruction."),
            VmError::DivideByZero => String::from_str("Attempt to divide by zero."),
            VmError::OutOfMemory => String::from_str("Out of memory."),
            VmError::StackEmpty => String::from_str("Stack is empty."),
            VmError::OutOfBounds => String::from_str("Address out of bounds."),
            VmError::BadInput => String::from_str("Bad input."),
            VmError::BadFormat => String::from_str("Faulty format code."),
            VmError::Fatal => String::from_str("Program counter out of range."),
        }
    }
}

} // verus!
